use horst3::lookup::is_valid_md5sum;
use horst3::s3::{next_download_step, DownloadAction, DownloadEvent, DownloadState, S3Url};

#[test]
fn s3_url_formats_bucket_and_key() {
    let url = S3Url::new("bucket".to_string(), "dir/key.bin".to_string());
    assert_eq!(url.bucket, "bucket");
    assert_eq!(url.key, "dir/key.bin");
    assert_eq!(url.to_string(), "s3://bucket/dir/key.bin");
}

#[test]
fn md5sums_are_32_hex_digits() {
    assert!(is_valid_md5sum("0123456789abcdef0123456789ABCDEF"));
    assert!(!is_valid_md5sum("0123456789abcdef0123456789abcde"));
    assert!(!is_valid_md5sum("0123456789abcdef0123456789abcdefa"));
    assert!(!is_valid_md5sum("0123456789abcdef0123456789abcdeg"));
    assert!(!is_valid_md5sum(""));
    assert!(!is_valid_md5sum("0123456789abcdef0123456789abcdé"));
}

#[test]
fn object_without_key_is_fetched_directly() {
    let r = next_download_step(DownloadState::Resolving, DownloadEvent::Resolved { has_key: false });
    assert_eq!(r, (DownloadState::Finished, DownloadAction::FetchDirect));
}

#[test]
fn cache_hit_is_copied_out() {
    let r = next_download_step(DownloadState::Resolving, DownloadEvent::Resolved { has_key: true });
    assert_eq!(r, (DownloadState::LookingUp, DownloadAction::LookUp));
    let r = next_download_step(r.0, DownloadEvent::LookedUp { hit: true });
    assert_eq!(r, (DownloadState::Finished, DownloadAction::CopyFromCache));
}

#[test]
fn oversized_object_bypasses_cache() {
    let r = next_download_step(DownloadState::LookingUp, DownloadEvent::LookedUp { hit: false });
    assert_eq!(r, (DownloadState::MakingSpace, DownloadAction::MakeSpace));
    let r = next_download_step(r.0, DownloadEvent::SpaceMade { fits: false });
    assert_eq!(r, (DownloadState::Finished, DownloadAction::FetchDirect));
}

#[test]
fn admission_commits_only_after_complete_write() {
    let r = next_download_step(DownloadState::MakingSpace, DownloadEvent::SpaceMade { fits: true });
    assert_eq!(r, (DownloadState::Fetching, DownloadAction::FetchToTemporary));
    let ok = next_download_step(r.0, DownloadEvent::Fetched { ok: true });
    assert_eq!(ok, (DownloadState::Committing, DownloadAction::CommitTemporary));
    let touched = next_download_step(ok.0, DownloadEvent::Committed);
    assert_eq!(touched, (DownloadState::Finished, DownloadAction::TouchCommitted));
    let failed = next_download_step(r.0, DownloadEvent::Fetched { ok: false });
    assert_eq!(failed, (DownloadState::Finished, DownloadAction::DiscardTemporary));
}

#[test]
fn out_of_step_event_is_abandoned() {
    let r = next_download_step(DownloadState::Resolving, DownloadEvent::Fetched { ok: true });
    assert_eq!(r, (DownloadState::Finished, DownloadAction::Abandon));
    let r = next_download_step(DownloadState::Finished, DownloadEvent::Resolved { has_key: true });
    assert_eq!(r, (DownloadState::Finished, DownloadAction::Abandon));
}
