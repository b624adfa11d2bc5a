use reposync::error::SyncError;
use reposync::fetch::{temp_path, FetchAction, FetchEvent, FetchState, Fetcher};
use reposync::package::{Check, Checksum};

fn sum() -> Checksum {
    Checksum { algorithm: "sha256".to_string(), sum: "ab".to_string() }
}

#[test]
fn temp_file_is_a_sibling_with_suffix() {
    assert_eq!(temp_path("/srv/r/Packages/a.rpm"), "/srv/r/Packages/a.rpm.sync.tmp");
}

#[test]
fn missing_file_is_downloaded_checked_and_renamed() {
    let mut f = Fetcher::new(Check::RemoteSize(10));
    assert_eq!(f.step(FetchEvent::LocalSize(None)), FetchAction::Download);
    assert_eq!(f.step(FetchEvent::Downloaded(10)), FetchAction::RenameTemp);
    assert_eq!(f.step(FetchEvent::Renamed), FetchAction::Done);
    assert_eq!(f.state, FetchState::Finished);
}

#[test]
fn remote_size_mode_accepts_existing_files() {
    let mut f = Fetcher::new(Check::RemoteSize(10));
    assert_eq!(f.step(FetchEvent::LocalSize(Some(3))), FetchAction::Done);
    let mut m = Fetcher::new(Check::Metadata);
    assert_eq!(m.step(FetchEvent::LocalSize(Some(3))), FetchAction::Done);
}

#[test]
fn size_mode_redownloads_wrong_size() {
    let mut f = Fetcher::new(Check::Size(10));
    assert_eq!(f.step(FetchEvent::LocalSize(Some(9))), FetchAction::Download);
    let mut g = Fetcher::new(Check::Size(10));
    assert_eq!(g.step(FetchEvent::LocalSize(Some(10))), FetchAction::Done);
}

#[test]
fn hash_mode_rechecks_local_and_downloaded_files() {
    let c = sum();
    let mut ok = Fetcher::new(Check::Hash(10, &c));
    assert_eq!(ok.step(FetchEvent::LocalSize(Some(10))), FetchAction::HashLocal);
    assert_eq!(ok.step(FetchEvent::DigestMatches(true)), FetchAction::Done);

    let mut corrupt = Fetcher::new(Check::Hash(10, &c));
    assert_eq!(corrupt.step(FetchEvent::LocalSize(Some(10))), FetchAction::HashLocal);
    assert_eq!(corrupt.step(FetchEvent::DigestMatches(false)), FetchAction::Download);
    assert_eq!(corrupt.step(FetchEvent::Downloaded(10)), FetchAction::HashTemp);
    assert_eq!(corrupt.step(FetchEvent::DigestMatches(true)), FetchAction::RenameTemp);
}

#[test]
fn short_download_fails_without_rename() {
    let mut f = Fetcher::new(Check::Size(10));
    assert_eq!(f.step(FetchEvent::LocalSize(None)), FetchAction::Download);
    assert_eq!(
        f.step(FetchEvent::Downloaded(7)),
        FetchAction::Abort(SyncError::SizeMismatch { expected: 10, actual: 7 })
    );
    assert_eq!(f.state, FetchState::Failed);
    assert!(!f.accepts(&FetchEvent::Renamed));
}

#[test]
fn checksum_mismatch_after_download_fails() {
    let c = sum();
    let mut f = Fetcher::new(Check::Hash(4, &c));
    assert_eq!(f.step(FetchEvent::LocalSize(None)), FetchAction::Download);
    assert_eq!(f.step(FetchEvent::Downloaded(4)), FetchAction::HashTemp);
    assert_eq!(f.step(FetchEvent::DigestMatches(false)), FetchAction::Abort(SyncError::ChecksumMismatch));
    assert_eq!(f.state, FetchState::Failed);
}

#[test]
fn network_failure_aborts_fetch() {
    let mut f = Fetcher::new(Check::RemoteSize(10));
    assert_eq!(f.step(FetchEvent::LocalSize(None)), FetchAction::Download);
    let e = SyncError::Network("HTTP 500".to_string());
    assert_eq!(f.step(FetchEvent::Failure(e.clone())), FetchAction::Abort(e));
    assert!(!f.accepts(&FetchEvent::Failure(SyncError::ChecksumMismatch)));
}

#[test]
fn metadata_downloads_have_no_size_check() {
    let mut f = Fetcher::new(Check::Metadata);
    assert_eq!(f.step(FetchEvent::LocalSize(None)), FetchAction::Download);
    assert_eq!(f.step(FetchEvent::Downloaded(12345)), FetchAction::RenameTemp);
}

#[test]
fn largest_sizes_are_compared_exactly() {
    let mut f = Fetcher::new(Check::RemoteSize(u64::MAX));
    assert_eq!(f.step(FetchEvent::LocalSize(None)), FetchAction::Download);
    assert_eq!(f.step(FetchEvent::Downloaded(u64::MAX)), FetchAction::RenameTemp);
    let mut g = Fetcher::new(Check::Size(u64::MAX));
    assert_eq!(g.step(FetchEvent::LocalSize(Some(u64::MAX - 1))), FetchAction::Download);
    assert_eq!(
        g.step(FetchEvent::Downloaded(0)),
        FetchAction::Abort(SyncError::SizeMismatch { expected: u64::MAX, actual: 0 })
    );
}
