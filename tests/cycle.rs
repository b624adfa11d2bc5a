use reposync::cycle::{orphans, publish_plan, Cycle, CycleAction, CycleEvent, Phase, WalkEntry};
use reposync::error::SyncError;
use reposync::package::{CheckType, Checksum, Metadata, Package, Size, Version};
use reposync::repo::{Data, Mirror, Repo};

fn repo(rev: Option<u64>) -> Repo {
    Repo {
        revision: rev,
        data: vec![Data { datum: "primary".to_string(), href: "repodata/p-primary.xml.gz".to_string() }],
    }
}

fn package(href: &str) -> Package {
    Package {
        name: href.to_string(),
        version: Version { epoch: "0".to_string(), ver: "1".to_string(), rel: "1".to_string() },
        href: href.to_string(),
        checksum: Checksum { algorithm: "sha256".to_string(), sum: "00".to_string() },
        size: Size { package: 1, installed: 1, archive: 1 },
    }
}

fn file(path: &str) -> WalkEntry {
    WalkEntry { path: path.to_string(), is_dir: false }
}

fn dir(path: &str) -> WalkEntry {
    WalkEntry { path: path.to_string(), is_dir: true }
}

#[test]
fn fresh_clone_runs_every_phase_in_order() {
    let mut c = Cycle::new(CheckType::CheckRemoteSize);
    assert_eq!(c.step(CycleEvent::RemoteIndex(Some(7))), CycleAction::LoadLocalIndex);
    assert_eq!(c.step(CycleEvent::LocalIndex(None)), CycleAction::StageMetadata);
    assert_eq!(c.step(CycleEvent::Succeeded), CycleAction::DownloadPayloads);
    assert_eq!(c.step(CycleEvent::Succeeded), CycleAction::PublishMetadata);
    assert_eq!(c.step(CycleEvent::Succeeded), CycleAction::CleanOrphans);
    assert_eq!(c.step(CycleEvent::Succeeded), CycleAction::Finish);
    assert_eq!(c.phase, Phase::Done);
}

#[test]
fn up_to_date_in_remote_size_mode_only_cleans() {
    let mut c = Cycle::new(CheckType::CheckRemoteSize);
    c.step(CycleEvent::RemoteIndex(Some(7)));
    assert_eq!(c.step(CycleEvent::LocalIndex(Some(Some(7)))), CycleAction::CleanOrphans);
    assert_eq!(c.step(CycleEvent::Succeeded), CycleAction::Finish);
}

#[test]
fn up_to_date_in_hash_mode_still_verifies() {
    let mut c = Cycle::new(CheckType::CheckHash);
    c.step(CycleEvent::RemoteIndex(Some(7)));
    assert_eq!(c.step(CycleEvent::LocalIndex(Some(Some(7)))), CycleAction::StageMetadata);
}

#[test]
fn missing_revision_forces_refresh() {
    let mut c = Cycle::new(CheckType::CheckRemoteSize);
    c.step(CycleEvent::RemoteIndex(None));
    assert_eq!(c.step(CycleEvent::LocalIndex(Some(None))), CycleAction::StageMetadata);
    let mut d = Cycle::new(CheckType::CheckRemoteSize);
    d.step(CycleEvent::RemoteIndex(Some(8)));
    assert_eq!(d.step(CycleEvent::LocalIndex(Some(Some(7)))), CycleAction::StageMetadata);
}

#[test]
fn download_failure_aborts_before_publish() {
    let mut c = Cycle::new(CheckType::CheckRemoteSize);
    c.step(CycleEvent::RemoteIndex(Some(2)));
    c.step(CycleEvent::LocalIndex(None));
    assert_eq!(c.step(CycleEvent::Succeeded), CycleAction::DownloadPayloads);
    let e = SyncError::Network("HTTP 500".to_string());
    assert_eq!(c.step(CycleEvent::Failed(e.clone())), CycleAction::Abort(e));
    assert_eq!(c.phase, Phase::Aborted);
    assert!(!c.accepts(&CycleEvent::Succeeded));
}

#[test]
fn integrity_failure_aborts_before_publish() {
    let mut c = Cycle::new(CheckType::CheckHash);
    c.step(CycleEvent::RemoteIndex(Some(2)));
    c.step(CycleEvent::LocalIndex(Some(Some(1))));
    c.step(CycleEvent::Succeeded);
    let action = c.step(CycleEvent::Failed(SyncError::ChecksumMismatch));
    assert_eq!(action, CycleAction::Abort(SyncError::ChecksumMismatch));
    assert!(SyncError::ChecksumMismatch.is_integrity());
    assert!(!SyncError::MissingPrimary.is_integrity());
}

#[test]
fn orphans_are_unreferenced_regular_files() {
    let refs = vec!["a".to_string(), "d/b".to_string()];
    let walked = vec![dir(""), file("a"), dir("d"), file("d/b"), file("d/c"), file("e")];
    assert_eq!(orphans(&refs, &walked), vec!["d/c".to_string(), "e".to_string()]);
}

#[test]
fn cleaner_removes_exactly_the_stale_packages() {
    // The new primary list holds 85 packages that the old one did not, and
    // drops 68 that the target still has.
    let kept: Vec<String> = (0..200).map(|i| format!("Packages/k/kept-{}.rpm", i)).collect();
    let added: Vec<String> = (0..85).map(|i| format!("Packages/n/new-{}.rpm", i)).collect();
    let dropped: Vec<String> = (0..68).map(|i| format!("Packages/o/old-{}.rpm", i)).collect();
    let primary = Metadata {
        packages: kept.iter().chain(added.iter()).map(|h| package(h)).collect(),
    };
    let mirror = Mirror::new(repo(Some(9)), "file:///srv/r".to_string());
    let mut walked = vec![dir(""), dir("repodata"), file("repodata/repomd.xml"), file("repodata/p-primary.xml.gz")];
    walked.push(file("repodata/stale-other.xml.gz"));
    for h in kept.iter().chain(added.iter()).chain(dropped.iter()) {
        walked.push(file(h));
    }
    let removed = mirror.orphans(&primary, &None, &walked);
    let mut expected: Vec<String> = vec!["repodata/stale-other.xml.gz".to_string()];
    expected.extend(dropped.iter().cloned());
    assert_eq!(removed, expected);
    assert_eq!(removed.len(), 69);
}

#[test]
fn referenced_files_cover_metadata_and_packages() {
    let primary = Metadata { packages: vec![package("Packages/x.rpm")] };
    let mirror = Mirror::new(repo(Some(1)), "file:///srv/r".to_string());
    let refs = mirror.referenced_files(&primary, &None);
    assert_eq!(
        refs,
        vec![
            "repodata/repomd.xml".to_string(),
            "repodata/p-primary.xml.gz".to_string(),
            "Packages/x.rpm".to_string()
        ]
    );
}

#[test]
fn publish_replaces_regular_files_and_keeps_subdirectories() {
    let target = Some(vec![file("repomd.xml"), file("old-primary.xml.gz"), dir("extra")]);
    let staged = vec![file("repomd.xml"), file("new-primary.xml.gz")];
    let plan = publish_plan(&target, &staged);
    assert!(!plan.create_dir);
    assert_eq!(plan.remove, vec!["repomd.xml".to_string(), "old-primary.xml.gz".to_string()]);
    assert_eq!(plan.copy, vec!["repomd.xml".to_string(), "new-primary.xml.gz".to_string()]);
}

#[test]
fn publish_into_missing_directory_creates_it() {
    let plan = publish_plan(&None, &vec![file("repomd.xml"), dir("nested")]);
    assert!(plan.create_dir);
    assert!(plan.remove.is_empty());
    assert_eq!(plan.copy, vec!["repomd.xml".to_string()]);
}
