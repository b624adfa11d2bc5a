use reposync::package::{
    Check, CheckType, Checksum, Delta, Metadata, NewPackage, Package, PrestoDelta, Size, Version,
    WorkItem, WorkQueue,
};

fn sum(alg: &str, s: &str) -> Checksum {
    Checksum { algorithm: alg.to_string(), sum: s.to_string() }
}

fn package(name: &str, href: &str, size: u64) -> Package {
    Package {
        name: name.to_string(),
        version: Version { epoch: "0".to_string(), ver: "1.0".to_string(), rel: "1".to_string() },
        href: href.to_string(),
        checksum: sum("sha256", "00"),
        size: Size { package: size, installed: size * 2, archive: size + 1 },
    }
}

fn item(href: &str, size: u64) -> WorkItem {
    WorkItem { href: href.to_string(), size, checksum: sum("sha256", "00") }
}

fn hrefs(items: &[WorkItem]) -> Vec<&str> {
    items.iter().map(|w| w.href.as_str()).collect()
}

#[test]
fn primary_files_are_sorted_by_href() {
    let md = Metadata {
        packages: vec![
            package("zsh", "Packages/z/zsh-5.rpm", 30),
            package("bash", "Packages/b/bash-4.rpm", 10),
            package("Bash", "Packages/B/Bash-1.rpm", 5),
            package("curl", "Packages/c/curl-7.rpm", 20),
        ],
    };
    let files = md.files();
    assert_eq!(
        hrefs(&files),
        vec![
            "Packages/B/Bash-1.rpm",
            "Packages/b/bash-4.rpm",
            "Packages/c/curl-7.rpm",
            "Packages/z/zsh-5.rpm"
        ]
    );
    assert_eq!(files[1].size, 10);
    assert_eq!(files[3].size, 30);
}

#[test]
fn primary_files_drop_duplicate_entries() {
    let md = Metadata {
        packages: vec![
            package("a", "Packages/a.rpm", 1),
            package("b", "Packages/b.rpm", 2),
            package("a", "Packages/a.rpm", 1),
            package("a2", "Packages/a.rpm", 9),
        ],
    };
    let files = md.files();
    // One item per href: the work set never names one path twice.
    assert_eq!(hrefs(&files), vec!["Packages/a.rpm", "Packages/b.rpm"]);
    assert!(files[0].size == 1 || files[0].size == 9);
    assert_eq!(files[1].size, 2);
}

#[test]
fn empty_lists_have_no_files() {
    assert!(Metadata { packages: Vec::new() }.files().is_empty());
    assert!(PrestoDelta { new_packages: Vec::new() }.files().is_empty());
}

#[test]
fn delta_files_flatten_all_new_packages() {
    let delta = |f: &str, s: u64| Delta { filename: f.to_string(), checksum: sum("sha1", "ab"), size: s };
    let pd = PrestoDelta {
        new_packages: vec![
            NewPackage {
                name: "b".to_string(),
                version: "2".to_string(),
                deltas: vec![delta("drpms/b-2.drpm", 4), delta("drpms/a-2.drpm", 3)],
            },
            NewPackage { name: "c".to_string(), version: "1".to_string(), deltas: Vec::new() },
            NewPackage {
                name: "a".to_string(),
                version: "3".to_string(),
                deltas: vec![delta("drpms/a-3.drpm", 5), delta("drpms/a-2.drpm", 3)],
            },
        ],
    };
    let files = pd.files();
    assert_eq!(hrefs(&files), vec!["drpms/a-2.drpm", "drpms/a-3.drpm", "drpms/b-2.drpm"]);
    assert_eq!(files[0].checksum.algorithm, "sha1");
}

#[test]
fn only_remote_size_mode_is_remote_only() {
    assert!(CheckType::CheckRemoteSize.remote_only());
    assert!(!CheckType::CheckSize.remote_only());
    assert!(!CheckType::CheckHash.remote_only());
}

#[test]
fn mode_gives_check_of_item() {
    let w = item("Packages/a.rpm", 42);
    assert!(matches!(Check::for_item(CheckType::CheckRemoteSize, &w), Check::RemoteSize(42)));
    assert!(matches!(Check::for_item(CheckType::CheckSize, &w), Check::Size(42)));
    match Check::for_item(CheckType::CheckHash, &w) {
        Check::Hash(42, c) => assert_eq!(c.sum, "00"),
        other => panic!("unexpected {:?}", other),
    }
}

#[test]
fn queue_hands_out_each_item_once_in_order() {
    let mut q = WorkQueue::new(vec![item("a", 1), item("b", 2), item("c", 3)]);
    let mut seen = Vec::new();
    while let Some(w) = q.take() {
        seen.push(w.href);
    }
    assert_eq!(seen, vec!["a", "b", "c"]);
    assert!(q.take().is_none());
}

#[test]
fn empty_queue_hands_out_nothing() {
    let mut q = WorkQueue::new(Vec::new());
    assert!(q.take().is_none());
}
