use calyx::thumbnail_key::{ThumbnailKey, ThumbnailPriority, ThumbnailRequest, ThumbnailStatus};
use calyx::thumbnail_pipeline::{ThumbnailPipeline, THUMBNAIL_MAX_FAILURES};
use calyx::thumbnail_request::{ThumbnailAssetTypes, MATERIAL_TYPE_UUID, SKYBOX_TYPE_UUID};

const PREFAB_TYPE: u128 = 0x5f3b_0d4e_91a2_4c6b_8f10_2d7e_aa41_c903;

fn request(source_version: u64) -> ThumbnailRequest {
    ThumbnailRequest {
        asset_id: 1,
        asset_type: 2,
        source_path: Some("assets/texture.png".to_string()),
        source_version,
    }
}

fn check_request_deduplicates_and_promotes_priority() {
    let mut pipeline = ThumbnailPipeline::default();
    let request = request(7);
    let key = request.key();

    pipeline.request(request.clone(), ThumbnailPriority::Low);
    pipeline.request(request, ThumbnailPriority::High);

    assert_eq!(pipeline.queued_len(), 1);
    assert_eq!(
        pipeline.status(key),
        ThumbnailStatus::Queued {
            priority: ThumbnailPriority::High
        }
    );
}

fn check_start_next_picks_highest_priority_job() {
    let mut pipeline = ThumbnailPipeline::default();
    let low = request(1);
    let high = request(2);

    pipeline.request(low.clone(), ThumbnailPriority::Low);
    pipeline.request(high.clone(), ThumbnailPriority::High);

    let job = pipeline.start_next().unwrap();

    assert_eq!(job.key(), high.key());
    assert_eq!(pipeline.status(high.key()), ThumbnailStatus::InProgress);
    assert_eq!(
        pipeline.status(low.key()),
        ThumbnailStatus::Queued {
            priority: ThumbnailPriority::Low
        }
    );
}

fn check_complete_and_fail_only_update_in_progress_jobs() {
    let mut pipeline = ThumbnailPipeline::default();
    let request = request(1);
    let key = request.key();

    assert!(!pipeline.complete(key));
    assert!(!pipeline.fail(key, "not started".to_string()));

    pipeline.request(request.clone(), ThumbnailPriority::Normal);
    assert!(!pipeline.complete(key));

    pipeline.start_next();
    assert!(pipeline.complete(key));
    assert_eq!(pipeline.status(key), ThumbnailStatus::Ready);

    pipeline.request(request, ThumbnailPriority::Normal);
    assert!(!pipeline.fail(key, "already ready".to_string()));
    assert_eq!(pipeline.status(key), ThumbnailStatus::Ready);
}

fn check_failed_jobs_retry_until_failure_threshold() {
    let mut pipeline = ThumbnailPipeline::default();
    let request = request(1);
    let key = request.key();

    pipeline.request(request.clone(), ThumbnailPriority::Normal);

    for attempt in 1..=THUMBNAIL_MAX_FAILURES {
        pipeline.start_next();
        assert!(pipeline.fail(key, "bad source".to_string()));
        assert_eq!(pipeline.failure_count(key), attempt);

        let status = pipeline.request(request.clone(), ThumbnailPriority::High);
        if attempt < THUMBNAIL_MAX_FAILURES {
            assert_eq!(pipeline.queued_len(), 1);
            assert_eq!(
                status,
                ThumbnailStatus::Queued {
                    priority: ThumbnailPriority::High
                }
            );
        } else {
            assert_eq!(pipeline.queued_len(), 0);
            assert_eq!(
                status,
                ThumbnailStatus::Failed {
                    message: "bad source".into()
                }
            );
        }
    }
}

fn check_complete_and_clear_reset_failure_count() {
    let mut pipeline = ThumbnailPipeline::default();
    let request = request(1);
    let key = request.key();

    pipeline.request(request.clone(), ThumbnailPriority::Normal);
    pipeline.start_next();
    assert!(pipeline.fail(key, "bad source".to_string()));
    assert_eq!(pipeline.failure_count(key), 1);

    pipeline.request(request.clone(), ThumbnailPriority::Normal);
    pipeline.start_next();
    assert!(pipeline.complete(key));
    assert_eq!(pipeline.failure_count(key), 0);

    pipeline.request(request, ThumbnailPriority::Normal);
    pipeline.clear(key);
    assert_eq!(pipeline.failure_count(key), 0);
    assert_eq!(pipeline.status(key), ThumbnailStatus::Missing);
}

fn check_clear_prevents_stale_in_progress_completion() {
    let mut pipeline = ThumbnailPipeline::default();
    let request = request(1);
    let key = request.key();

    pipeline.request(request, ThumbnailPriority::Normal);
    pipeline.start_next();
    pipeline.clear(key);

    assert!(!pipeline.complete(key));
    assert_eq!(pipeline.status(key), ThumbnailStatus::Missing);
}

fn check_clear_asset_versions_removes_old_versions() {
    let mut pipeline = ThumbnailPipeline::default();
    let old = request(1);
    let new = request(2);
    let old_key = old.key();
    let new_key = new.key();

    pipeline.request(old, ThumbnailPriority::Normal);
    pipeline.request(new, ThumbnailPriority::Normal);
    pipeline.clear_asset_versions_except(1, 2);

    assert_eq!(pipeline.status(old_key), ThumbnailStatus::Missing);
    assert_eq!(
        pipeline.status(new_key),
        ThumbnailStatus::Queued {
            priority: ThumbnailPriority::Normal
        }
    );
}

fn check_material_and_skybox_assets_are_supported_for_thumbnails() {
    let types = ThumbnailAssetTypes::with_prefab(PREFAB_TYPE);
    assert!(types.is_supported_asset_type(MATERIAL_TYPE_UUID));
    assert_eq!(types.thumbnail_asset_type_name(MATERIAL_TYPE_UUID), "material");
    assert!(types.is_supported_asset_type(SKYBOX_TYPE_UUID));
    assert_eq!(types.thumbnail_asset_type_name(SKYBOX_TYPE_UUID), "skybox");
}

#[test]
fn thumbnail_request_deduplicates_and_promotes_priority() {
    check_request_deduplicates_and_promotes_priority();
}

#[test]
fn tests_request_deduplicates_and_promotes_priority() {
    check_request_deduplicates_and_promotes_priority();
}

#[test]
fn thumbnail_start_next_picks_highest_priority_job() {
    check_start_next_picks_highest_priority_job();
}

#[test]
fn tests_start_next_picks_highest_priority_job() {
    check_start_next_picks_highest_priority_job();
}

#[test]
fn thumbnail_complete_and_fail_only_update_in_progress_jobs() {
    check_complete_and_fail_only_update_in_progress_jobs();
}

#[test]
fn tests_complete_and_fail_only_update_in_progress_jobs() {
    check_complete_and_fail_only_update_in_progress_jobs();
}

#[test]
fn thumbnail_failed_jobs_retry_until_failure_threshold() {
    check_failed_jobs_retry_until_failure_threshold();
}

#[test]
fn tests_failed_jobs_retry_until_failure_threshold() {
    check_failed_jobs_retry_until_failure_threshold();
}

#[test]
fn thumbnail_complete_and_clear_reset_failure_count() {
    check_complete_and_clear_reset_failure_count();
}

#[test]
fn tests_complete_and_clear_reset_failure_count() {
    check_complete_and_clear_reset_failure_count();
}

#[test]
fn thumbnail_clear_prevents_stale_in_progress_completion() {
    check_clear_prevents_stale_in_progress_completion();
}

#[test]
fn tests_clear_prevents_stale_in_progress_completion() {
    check_clear_prevents_stale_in_progress_completion();
}

#[test]
fn thumbnail_clear_asset_versions_removes_old_versions() {
    check_clear_asset_versions_removes_old_versions();
}

#[test]
fn tests_clear_asset_versions_removes_old_versions() {
    check_clear_asset_versions_removes_old_versions();
}

#[test]
fn thumbnail_material_and_skybox_assets_are_supported_for_thumbnails() {
    check_material_and_skybox_assets_are_supported_for_thumbnails();
}

#[test]
fn tests_material_and_skybox_assets_are_supported_for_thumbnails() {
    check_material_and_skybox_assets_are_supported_for_thumbnails();
}

#[test]
fn start_next_breaks_priority_ties_by_request_order() {
    let mut pipeline = ThumbnailPipeline::new();
    let first = ThumbnailRequest { asset_id: 10, ..request(1) };
    let second = ThumbnailRequest { asset_id: 11, ..request(1) };
    pipeline.request(first.clone(), ThumbnailPriority::Normal);
    pipeline.request(second.clone(), ThumbnailPriority::Normal);
    assert_eq!(pipeline.start_next().unwrap().key(), first.key());
    assert_eq!(pipeline.start_next().unwrap().key(), second.key());
    assert!(pipeline.start_next().is_none());
}

#[test]
fn requests_do_not_restart_started_or_ready_thumbnails() {
    let mut pipeline = ThumbnailPipeline::new();
    let r = request(3);
    pipeline.request(r.clone(), ThumbnailPriority::Low);
    pipeline.start_next();
    assert_eq!(pipeline.request(r.clone(), ThumbnailPriority::High), ThumbnailStatus::InProgress);
    assert_eq!(pipeline.queued_len(), 0);
    assert!(pipeline.complete(r.key()));
    assert_eq!(pipeline.request(r.clone(), ThumbnailPriority::High), ThumbnailStatus::Ready);
    assert_eq!(pipeline.queued_len(), 0);
}

#[test]
fn unknown_key_is_missing_with_no_failures() {
    let pipeline = ThumbnailPipeline::new();
    let key = ThumbnailKey { asset_id: 99, source_version: 4 };
    assert_eq!(pipeline.status(key), ThumbnailStatus::Missing);
    assert_eq!(pipeline.failure_count(key), 0);
}
