use vstd::prelude::*;
use crate::keyed_list::{keys_unique, has_key, entries_map, lemma_entries_map_at, find_key, upsert};
use crate::thumbnail_key::{ThumbnailKey, ThumbnailPriority, ThumbnailStatus, ThumbnailRequest, ThumbnailJob};
use crate::thumbnail_pipeline::{ThumbnailPipeline, KeySelection, without_selected, drop_selected_entries, THUMBNAIL_MAX_FAILURES, stale_version};

verus! {

/// What the thumbnail worker does next.
pub enum WorkerStep {
    /// The service is shutting down: the worker ends.
    Stop,
    /// The disk cache of the project is to be removed.
    InvalidateCache,
    /// `job` is to be generated for cache epoch `cache_epoch`.
    Generate { job: ThumbnailJob, cache_epoch: u64 },
    /// Nothing to do: the worker waits for a wake-up.
    Wait,
}

/// The state that the thumbnail service shares with its worker: the pipeline,
/// the finished textures (of type `T`), the cache epoch that results must
/// match, and the pending invalidation and stop requests.
pub struct ThumbnailState<T> {
    pipeline: ThumbnailPipeline,
    textures: Vec<(ThumbnailKey, T)>,
    cache_epoch: u64,
    invalidate_requested: bool,
    stop_requested: bool,
}

/// The successor of `n`, wrapping to zero after `u64::MAX`.
pub open spec fn wrapping_next(n: u64) -> u64 {
    if n < u64::MAX {
        (n + 1) as u64
    } else {
        0
    }
}

impl<T> ThumbnailState<T> {
    pub closed spec fn pipeline(&self) -> ThumbnailPipeline {
        self.pipeline
    }

    pub closed spec fn texture_map(&self) -> Map<ThumbnailKey, T> {
        entries_map(self.textures@)
    }

    pub closed spec fn epoch(&self) -> u64 {
        self.cache_epoch
    }

    pub closed spec fn invalidate_pending(&self) -> bool {
        self.invalidate_requested
    }

    pub closed spec fn stopping(&self) -> bool {
        self.stop_requested
    }

    /// The pipeline is well formed and no key has two textures.
    #[verifier::type_invariant]
    spec fn well_formed(&self) -> bool {
        self.pipeline.wf() && keys_unique(self.textures@)
    }

    /// `self` has an empty pipeline and no textures.
    pub open spec fn is_fresh_pipeline(&self) -> bool {
        &&& self.pipeline().queue() == Seq::<ThumbnailJob>::empty()
        &&& self.pipeline().status_map() == Map::<ThumbnailKey, ThumbnailStatus>::empty()
        &&& self.pipeline().failure_map() == Map::<ThumbnailKey, u8>::empty()
        &&& self.pipeline().next_order() == 0
        &&& self.texture_map() == Map::<ThumbnailKey, T>::empty()
    }

    /// A state with nothing requested, epoch zero and no pending requests.
    pub fn new() -> (r: ThumbnailState<T>)
        ensures
            r.pipeline().wf(),
            r.is_fresh_pipeline(),
            r.epoch() == 0,
            !r.invalidate_pending(),
            !r.stopping(),
    {
        let r = ThumbnailState {
            pipeline: ThumbnailPipeline::new(),
            textures: Vec::new(),
            cache_epoch: 0,
            invalidate_requested: false,
            stop_requested: false,
        };
        proof {
            assert(r.texture_map() =~= Map::<ThumbnailKey, T>::empty());
        }
        r
    }

    /// The current cache epoch.
    pub fn cache_epoch(&self) -> (r: u64)
        ensures
            r == self.epoch(),
    {
        self.cache_epoch
    }

    /// The status of `key`.
    pub fn status(&self, key: ThumbnailKey) -> (r: ThumbnailStatus)
        ensures
            r == self.pipeline().spec_status(key),
    {
        proof {
            use_type_invariant(self);
        }
        self.pipeline.status(key)
    }

    /// How many times `key` has failed.
    pub fn failure_count(&self, key: ThumbnailKey) -> (r: u8)
        ensures
            r == self.pipeline().spec_failure_count(key),
    {
        proof {
            use_type_invariant(self);
        }
        self.pipeline.failure_count(key)
    }

    /// The finished texture of `key`, if there is one.
    pub fn texture(&self, key: ThumbnailKey) -> (r: Option<&T>)
        ensures
            match r {
                Some(t) => self.texture_map().contains_key(key) && *t == self.texture_map()[key],
                None => !self.texture_map().contains_key(key),
            },
    {
        proof {
            use_type_invariant(self);
        }
        match find_key(&self.textures, key) {
            Some(i) => {
                proof {
                    lemma_entries_map_at(self.textures@, i as int);
                }
                Some(&self.textures[i].1)
            },
            None => None,
        }
    }

    /// Asks for a thumbnail: first forgets every other version of the asset
    /// (jobs, statuses, counts and textures), then passes the request to the
    /// pipeline; returns the resulting status.
    pub fn request(&mut self, request: ThumbnailRequest, priority: ThumbnailPriority) -> (r: ThumbnailStatus)
        ensures
            final(self).pipeline().wf(),
            exists|mid: ThumbnailPipeline|
                mid.is_version_clear_of(&old(self).pipeline(), request.asset_id, request.source_version)
                    && final(self).pipeline().is_request_of(&mid, request, priority),
            final(self).texture_map() == without_selected(
                old(self).texture_map(),
                KeySelection::OtherVersions { asset_id: request.asset_id, keep_version: request.source_version },
            ),
            r == final(self).pipeline().spec_status(request.spec_key()),
            final(self).epoch() == old(self).epoch(),
            final(self).invalidate_pending() == old(self).invalidate_pending(),
            final(self).stopping() == old(self).stopping(),
    {
        proof {
            use_type_invariant(&*self);
        }
        let mut pipeline = ThumbnailPipeline::new();
        std::mem::swap(&mut pipeline, &mut self.pipeline);
        let mut textures: Vec<(ThumbnailKey, T)> = Vec::new();
        std::mem::swap(&mut textures, &mut self.textures);
        pipeline.clear_asset_versions_except(request.asset_id, request.source_version);
        let ghost mid = pipeline;
        let sel = KeySelection::OtherVersions { asset_id: request.asset_id, keep_version: request.source_version };
        drop_selected_entries(&mut textures, &sel);
        let r = pipeline.request(request, priority);
        self.pipeline = pipeline;
        self.textures = textures;
        proof {
            assert(mid.is_version_clear_of(&old(self).pipeline(), request.asset_id, request.source_version));
        }
        r
    }

    /// New render settings: results of earlier settings are void, so the
    /// epoch moves on (wrapping), and the pipeline and textures start empty.
    pub fn change_render_settings(&mut self)
        ensures
            final(self).pipeline().wf(),
            final(self).is_fresh_pipeline(),
            final(self).epoch() == wrapping_next(old(self).epoch()),
            final(self).invalidate_pending() == old(self).invalidate_pending(),
            final(self).stopping() == old(self).stopping(),
    {
        proof {
            use_type_invariant(&*self);
        }
        self.cache_epoch = if self.cache_epoch < u64::MAX { self.cache_epoch + 1 } else { 0 };
        self.pipeline = ThumbnailPipeline::new();
        self.textures = Vec::new();
        proof {
            assert(self.texture_map() =~= Map::<ThumbnailKey, T>::empty());
        }
    }

    /// Asks the worker to remove the disk cache: the epoch moves on (wrapping),
    /// the pipeline and textures start empty and the invalidation is pending.
    pub fn invalidate_cache(&mut self)
        ensures
            final(self).pipeline().wf(),
            final(self).is_fresh_pipeline(),
            final(self).epoch() == wrapping_next(old(self).epoch()),
            final(self).invalidate_pending(),
            final(self).stopping() == old(self).stopping(),
    {
        self.change_render_settings();
        proof {
            use_type_invariant(&*self);
        }
        self.invalidate_requested = true;
    }

    /// Asks the worker to end.
    pub fn request_stop(&mut self)
        ensures
            final(self).pipeline().wf(),
            final(self).stopping(),
            final(self).pipeline() == old(self).pipeline(),
            final(self).texture_map() == old(self).texture_map(),
            final(self).epoch() == old(self).epoch(),
            final(self).invalidate_pending() == old(self).invalidate_pending(),
    {
        proof {
            use_type_invariant(&*self);
        }
        self.stop_requested = true;
    }

    /// The worker's next step: stop when asked to, else remove the cache when
    /// asked to (clearing that request), else start the next job, else wait.
    pub fn next_step(&mut self) -> (r: WorkerStep)
        ensures
            final(self).pipeline().wf(),
            final(self).epoch() == old(self).epoch(),
            final(self).texture_map() == old(self).texture_map(),
            final(self).stopping() == old(self).stopping(),
            old(self).stopping() ==> r is Stop && final(self).pipeline() == old(self).pipeline()
                && final(self).invalidate_pending() == old(self).invalidate_pending(),
            !old(self).stopping() && old(self).invalidate_pending() ==> r is InvalidateCache
                && !final(self).invalidate_pending() && final(self).pipeline() == old(self).pipeline(),
            !old(self).stopping() && !old(self).invalidate_pending() ==> !final(self).invalidate_pending()
                && match r {
                WorkerStep::Generate { job, cache_epoch } => cache_epoch == old(self).epoch()
                    && final(self).pipeline().is_start_of(&old(self).pipeline(), Some(job)),
                WorkerStep::Wait => final(self).pipeline().is_start_of(&old(self).pipeline(), None),
                _ => false,
            },
    {
        proof {
            use_type_invariant(&*self);
        }
        if self.stop_requested {
            return WorkerStep::Stop;
        }
        if self.invalidate_requested {
            self.invalidate_requested = false;
            return WorkerStep::InvalidateCache;
        }
        let mut pipeline = ThumbnailPipeline::new();
        std::mem::swap(&mut pipeline, &mut self.pipeline);
        let next = pipeline.start_next();
        self.pipeline = pipeline;
        match next {
            Some(job) => WorkerStep::Generate { job, cache_epoch: self.cache_epoch },
            None => WorkerStep::Wait,
        }
    }

    /// Whether a result generated for `cache_epoch` should be written to the
    /// disk cache: the epoch is current and `key` is still in progress.
    pub fn should_store(&self, cache_epoch: u64, key: ThumbnailKey) -> (r: bool)
        ensures
            r == (cache_epoch == self.epoch() && self.pipeline().spec_status(key) is InProgress),
    {
        proof {
            use_type_invariant(self);
        }
        if cache_epoch != self.cache_epoch {
            return false;
        }
        let status = self.pipeline.status(key);
        matches!(status, ThumbnailStatus::InProgress)
    }

    /// Records a finished texture for `key`: only when the epoch is current
    /// and the pipeline accepts the completion; returns whether it did.
    pub fn finish(&mut self, cache_epoch: u64, key: ThumbnailKey, texture: T) -> (r: bool)
        ensures
            final(self).pipeline().wf(),
            final(self).epoch() == old(self).epoch(),
            final(self).invalidate_pending() == old(self).invalidate_pending(),
            final(self).stopping() == old(self).stopping(),
            cache_epoch != old(self).epoch() ==> !r && final(self).pipeline() == old(self).pipeline()
                && final(self).texture_map() == old(self).texture_map(),
            cache_epoch == old(self).epoch() ==> final(self).pipeline().is_completion_of(
                &old(self).pipeline(),
                key,
                r,
            ),
            r ==> final(self).texture_map() == old(self).texture_map().insert(key, texture),
            !r ==> final(self).texture_map() == old(self).texture_map(),
    {
        proof {
            use_type_invariant(&*self);
        }
        if cache_epoch != self.cache_epoch {
            return false;
        }
        let mut pipeline = ThumbnailPipeline::new();
        std::mem::swap(&mut pipeline, &mut self.pipeline);
        let updated = pipeline.complete(key);
        self.pipeline = pipeline;
        if updated {
            let mut textures: Vec<(ThumbnailKey, T)> = Vec::new();
            std::mem::swap(&mut textures, &mut self.textures);
            upsert(&mut textures, key, texture);
            self.textures = textures;
        }
        updated
    }

    /// Records a failed job: only when the epoch is current. Returns whether
    /// the failure should be reported, that is the pipeline accepted it and it
    /// is at most the `THUMBNAIL_MAX_FAILURES`-th failure of `key`.
    pub fn fail(&mut self, cache_epoch: u64, key: ThumbnailKey, message: String) -> (r: bool)
        ensures
            final(self).pipeline().wf(),
            final(self).epoch() == old(self).epoch(),
            final(self).texture_map() == old(self).texture_map(),
            final(self).invalidate_pending() == old(self).invalidate_pending(),
            final(self).stopping() == old(self).stopping(),
            cache_epoch != old(self).epoch() ==> !r && final(self).pipeline() == old(self).pipeline(),
            cache_epoch == old(self).epoch() ==> exists|updated: bool|
                final(self).pipeline().is_failure_of(&old(self).pipeline(), key, message, updated)
                    && r == (updated && final(self).pipeline().spec_failure_count(key)
                    <= THUMBNAIL_MAX_FAILURES),
    {
        proof {
            use_type_invariant(&*self);
        }
        if cache_epoch != self.cache_epoch {
            return false;
        }
        let ghost msg = message;
        let mut pipeline = ThumbnailPipeline::new();
        std::mem::swap(&mut pipeline, &mut self.pipeline);
        let updated = pipeline.fail(key, message);
        let count = pipeline.failure_count(key);
        self.pipeline = pipeline;
        proof {
            assert(self.pipeline().is_failure_of(&old(self).pipeline(), key, msg, updated));
        }
        updated && count <= THUMBNAIL_MAX_FAILURES
    }
}

} // verus!
