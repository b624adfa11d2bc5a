use std::collections::BTreeSet;

use reposync::config::Config;
use reposync::tags::{tags_are_distinct, TagFieldIter, TagSet, UrlMux};

fn tags() -> Vec<(String, Vec<String>)> {
    vec![
        ("os".to_string(), vec!["fedora".to_string(), "epel".to_string()]),
        (
            "arch".to_string(),
            vec!["SRPMS".to_string(), "x86_64".to_string(), "i686".to_string()],
        ),
    ]
}

fn tag_set(pairs: &[(&str, &str)]) -> TagSet {
    TagSet::new(pairs.iter().map(|(k, v)| (k.to_string(), v.to_string())).collect())
}

#[test]
fn create_tag_field() {
    let mut fields = TagFieldIter::new(tags());
    let sets = fields.collect_all();
    assert_eq!(sets.len(), 6);
}

#[test]
fn url_tag_replace() {
    let mut fields = TagFieldIter::new(tags());
    let variants: BTreeSet<String> = fields
        .collect_all()
        .iter()
        .map(|f| f.expand("$os/$arch/$other"))
        .collect();

    assert!(variants.contains("fedora/SRPMS/$other"));
    assert!(variants.contains("fedora/x86_64/$other"));
    assert!(variants.contains("fedora/i686/$other"));
    assert!(variants.contains("epel/SRPMS/$other"));
    assert!(variants.contains("epel/x86_64/$other"));
    assert!(variants.contains("epel/i686/$other"));
}

#[test]
fn url_mux() {
    let mut mux = UrlMux::new("src/$os/$arch", "dst/$os/$arch", tags());
    let variants: BTreeSet<(String, String)> = mux.pairs().into_iter().collect();

    assert!(variants.contains(&("src/fedora/SRPMS".to_owned(), "dst/fedora/SRPMS".to_owned())));
    assert!(variants.contains(&("src/fedora/x86_64".to_owned(), "dst/fedora/x86_64".to_owned())));
    assert!(variants.contains(&("src/fedora/i686".to_owned(), "dst/fedora/i686".to_owned())));
    assert!(variants.contains(&("src/epel/SRPMS".to_owned(), "dst/epel/SRPMS".to_owned())));
    assert!(variants.contains(&("src/epel/x86_64".to_owned(), "dst/epel/x86_64".to_owned())));
    assert!(variants.contains(&("src/epel/i686".to_owned(), "dst/epel/i686".to_owned())));
}

#[test]
fn mux_yields_product_of_sizes_each_once() {
    let field = vec![
        ("a".to_string(), vec!["1".to_string(), "2".to_string()]),
        ("b".to_string(), vec!["x".to_string(), "y".to_string(), "z".to_string()]),
        ("c".to_string(), vec!["p".to_string(), "q".to_string()]),
    ];
    let mut mux = UrlMux::new("$a.$b.$c", "d/$a/$b/$c", field);
    let pairs = mux.pairs();
    assert_eq!(pairs.len(), 12);
    let distinct: BTreeSet<_> = pairs.iter().cloned().collect();
    assert_eq!(distinct.len(), 12);
    // The first tag advances fastest.
    assert_eq!(pairs[0], ("1.x.p".to_string(), "d/1/x/p".to_string()));
    assert_eq!(pairs[1], ("2.x.p".to_string(), "d/2/x/p".to_string()));
    assert_eq!(pairs[2], ("1.y.p".to_string(), "d/1/y/p".to_string()));
    assert_eq!(pairs[11], ("2.z.q".to_string(), "d/2/z/q".to_string()));
    assert_eq!(mux.next(), None);
}

#[test]
fn mux_without_tags_yields_templates_unchanged() {
    let mut mux = UrlMux::new("http://host/$os/", "/srv/$os", Vec::new());
    assert_eq!(
        mux.pairs(),
        vec![("http://host/$os/".to_string(), "/srv/$os".to_string())]
    );
}

#[test]
fn mux_with_empty_variant_list_yields_nothing() {
    let field = vec![
        ("os".to_string(), vec!["fedora".to_string()]),
        ("arch".to_string(), Vec::new()),
    ];
    let mut mux = UrlMux::new("$os/$arch", "$os/$arch", field);
    assert!(mux.pairs().is_empty());
}

#[test]
fn unknown_tag_passes_through_verbatim() {
    let ts = tag_set(&[("os", "fedora")]);
    assert_eq!(ts.expand("$os/$release/$os"), "fedora/$release/fedora");
    assert_eq!(tag_set(&[]).expand("a/$b/$c-d"), "a/$b/$c-d");
}

#[test]
fn tag_names_take_the_longest_run() {
    let ts = tag_set(&[("os", "fedora"), ("os_x", "mac")]);
    assert_eq!(ts.expand("$os_x.$os"), "mac.fedora");
    assert_eq!(ts.expand("$$os $ os"), "$fedora $ os");
    assert_eq!(ts.expand("$os-"), "$os-");
}

#[test]
fn tag_set_lookup_first_entry_wins() {
    let ts = tag_set(&[("os", "fedora"), ("os", "epel")]);
    assert_eq!(ts.get("os"), Some("fedora".to_string()));
    assert_eq!(ts.get("arch"), None);
    assert_eq!(ts.expand("$os"), "fedora");
}

#[test]
fn config_expands_its_pairs() {
    let config = Config {
        src: "http://mirror/$os/".to_string(),
        dest: "/srv/$os".to_string(),
        tags: vec![("os".to_string(), vec!["fedora".to_string(), "epel".to_string()])],
    };
    let pairs = config.url_mux().pairs();
    assert_eq!(
        pairs,
        vec![
            ("http://mirror/fedora/".to_string(), "/srv/fedora".to_string()),
            ("http://mirror/epel/".to_string(), "/srv/epel".to_string()),
        ]
    );
}

#[test]
fn repeated_tag_names_are_detected() {
    assert!(tags_are_distinct(&tags()));
    let mut twice = tags();
    twice.push(("os".to_string(), vec!["rhel".to_string()]));
    assert!(!tags_are_distinct(&twice));
    assert!(tags_are_distinct(&Vec::new()));
}
