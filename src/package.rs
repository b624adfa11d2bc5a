//! Package lists and delta lists, and the sorted set of files they ask to mirror.
use vstd::prelude::*;

use core::cmp::Ordering;
use vstd::utf8::encode_utf8;

verus! {

/// A declared checksum: an algorithm name and a lowercase hex digest.
#[derive(Debug)]
pub struct Checksum {
    pub algorithm: String,
    pub sum: String,
}

/// A package version.
#[derive(Debug)]
pub struct Version {
    pub epoch: String,
    pub ver: String,
    pub rel: String,
}

/// The sizes of a package; only `package`, the size of the file, is used.
#[derive(Debug)]
pub struct Size {
    pub package: u64,
    pub installed: u64,
    pub archive: u64,
}

/// One package of the primary list.
#[derive(Debug)]
pub struct Package {
    pub name: String,
    pub version: Version,
    /// Path of the package file, relative to the repository root.
    pub href: String,
    pub checksum: Checksum,
    pub size: Size,
}

/// The primary list: every package of the repository.
#[derive(Debug)]
pub struct Metadata {
    pub packages: Vec<Package>,
}

/// One delta file.
#[derive(Debug)]
pub struct Delta {
    pub filename: String,
    pub checksum: Checksum,
    pub size: u64,
}

/// The deltas that lead to one new package.
#[derive(Debug)]
pub struct NewPackage {
    pub name: String,
    pub version: String,
    pub deltas: Vec<Delta>,
}

/// The delta list of a repository.
#[derive(Debug)]
pub struct PrestoDelta {
    pub new_packages: Vec<NewPackage>,
}

/// A file to mirror: its href, declared size and declared checksum.
#[derive(Debug)]
pub struct WorkItem {
    pub href: String,
    pub size: u64,
    pub checksum: Checksum,
}

/// A work item as plain values: (href, size, algorithm, digest).
pub type ItemView = (Seq<char>, u64, Seq<char>, Seq<char>);

impl WorkItem {
    pub open spec fn view_of(&self) -> ItemView {
        (self.href@, self.size, self.checksum.algorithm@, self.checksum.sum@)
    }

    /// A copy of the item.
    pub fn duplicate(&self) -> (r: WorkItem)
        ensures
            r.view_of() == self.view_of(),
    {
        WorkItem {
            href: self.href.clone(),
            size: self.size,
            checksum: Checksum {
                algorithm: self.checksum.algorithm.clone(),
                sum: self.checksum.sum.clone(),
            },
        }
    }
}

pub open spec fn item_views(v: Seq<WorkItem>) -> Seq<ItemView> {
    v.map_values(|w: WorkItem| w.view_of())
}

// ---------------------------------------------------------------------------
// Ordering by href
// ---------------------------------------------------------------------------
/// Lexicographic comparison of byte strings, as `str` orders.
pub open spec fn lex_cmp(a: Seq<u8>, b: Seq<u8>) -> Ordering
    decreases a.len(),
{
    if a.len() == 0 {
        if b.len() == 0 {
            Ordering::Equal
        } else {
            Ordering::Less
        }
    } else if b.len() == 0 {
        Ordering::Greater
    } else if a[0] < b[0] {
        Ordering::Less
    } else if a[0] > b[0] {
        Ordering::Greater
    } else {
        lex_cmp(a.drop_first(), b.drop_first())
    }
}

/// The order of two items: by the UTF-8 bytes of their hrefs.
pub open spec fn href_cmp(a: ItemView, b: ItemView) -> Ordering {
    lex_cmp(encode_utf8(a.0), encode_utf8(b.0))
}

pub open spec fn sorted_by_href(v: Seq<ItemView>) -> bool {
    forall|i: int, j: int| 0 <= i < j < v.len() ==> href_cmp(v[i], v[j]) != Ordering::Greater
}

proof fn lemma_lex_antisymmetric(a: Seq<u8>, b: Seq<u8>)
    ensures
        lex_cmp(a, b) == Ordering::Less <==> lex_cmp(b, a) == Ordering::Greater,
    decreases a.len(),
{
    if a.len() > 0 && b.len() > 0 && a[0] == b[0] {
        lemma_lex_antisymmetric(a.drop_first(), b.drop_first());
    }
}

fn compare_bytes(a: &[u8], b: &[u8]) -> (r: Ordering)
    ensures
        r == lex_cmp(a@, b@),
{
    let mut i: usize = 0;
    assert(a@.subrange(0, a@.len() as int) =~= a@);
    assert(b@.subrange(0, b@.len() as int) =~= b@);
    while i < a.len() && i < b.len()
        invariant
            0 <= i <= a.len(),
            i <= b.len(),
            lex_cmp(a@, b@) == lex_cmp(
                a@.subrange(i as int, a@.len() as int),
                b@.subrange(i as int, b@.len() as int),
            ),
        decreases a.len() - i,
    {
        let ghost (sa, sb) = (
            a@.subrange(i as int, a@.len() as int),
            b@.subrange(i as int, b@.len() as int),
        );
        assert(sa.drop_first() =~= a@.subrange(i + 1, a@.len() as int));
        assert(sb.drop_first() =~= b@.subrange(i + 1, b@.len() as int));
        if a[i] < b[i] {
            return Ordering::Less;
        } else if a[i] > b[i] {
            return Ordering::Greater;
        }
        i += 1;
    }
    if i < a.len() {
        Ordering::Greater
    } else if i < b.len() {
        Ordering::Less
    } else {
        Ordering::Equal
    }
}

/// Compares two items by href.
pub fn compare_href(a: &WorkItem, b: &WorkItem) -> (r: Ordering)
    ensures
        r == href_cmp(a.view_of(), b.view_of()),
{
    compare_bytes(a.href.as_str().as_bytes(), b.href.as_str().as_bytes())
}

/// Relies on `slice::sort_by`: the slice is permuted into the order of the
/// comparator, here `compare_href`, a total order.
#[verifier::external_body]
fn sort_by_href(v: &mut Vec<WorkItem>)
    ensures
        item_views(final(v)@).to_multiset() == item_views(old(v)@).to_multiset(),
        final(v).len() == old(v).len(),
        sorted_by_href(item_views(final(v)@)),
{
    v.sort_by(|a, b| compare_href(a, b))
}

pub proof fn lemma_push_contains<A>(s: Seq<A>, x: A, y: A)
    ensures
        s.push(x).contains(y) <==> (s.contains(y) || y == x),
{
    if s.push(x).contains(y) {
        let j = choose|j: int| 0 <= j < s.push(x).len() && s.push(x)[j] == y;
        if j < s.len() {
            assert(s[j] == y);
        }
    }
    if y == x {
        assert(s.push(x)[s.len() as int] == y);
    } else if s.contains(y) {
        let j = choose|j: int| 0 <= j < s.len() && s[j] == y;
        assert(s.push(x)[j] == y);
    }
}

/// Whether some item of `v` has the href `h`.
pub open spec fn has_href(v: Seq<ItemView>, h: Seq<char>) -> bool {
    exists|a: int| 0 <= a < v.len() && #[trigger] v[a].0 == h
}

/// No two items share an href.
pub open spec fn unique_hrefs(v: Seq<ItemView>) -> bool {
    forall|i: int, j: int| 0 <= i < j < v.len() ==> v[i].0 != v[j].0
}

proof fn lemma_lex_reflexive(a: Seq<u8>)
    ensures
        lex_cmp(a, a) == Ordering::Equal,
    decreases a.len(),
{
    if a.len() > 0 {
        lemma_lex_reflexive(a.drop_first());
    }
}

proof fn lemma_lex_equal(a: Seq<u8>, b: Seq<u8>)
    requires
        lex_cmp(a, b) == Ordering::Equal,
    ensures
        a == b,
    decreases a.len(),
{
    if a.len() > 0 {
        lemma_lex_equal(a.drop_first(), b.drop_first());
        assert(a =~= seq![a[0]].add(a.drop_first()));
        assert(b =~= seq![b[0]].add(b.drop_first()));
    }
}

/// Items whose hrefs compare equal have the same href.
proof fn lemma_href_equal(x: ItemView, y: ItemView)
    requires
        href_cmp(x, y) == Ordering::Equal,
    ensures
        x.0 == y.0,
{
    lemma_lex_equal(encode_utf8(x.0), encode_utf8(y.0));
    vstd::utf8::encode_utf8_decode_utf8(x.0);
    vstd::utf8::encode_utf8_decode_utf8(y.0);
}

/// The items as a sorted set keyed by href: ordered by href, one item for
/// each href, each of them one of the given items.
pub fn sorted_set(items: Vec<WorkItem>) -> (r: Vec<WorkItem>)
    ensures
        sorted_by_href(item_views(r@)),
        unique_hrefs(item_views(r@)),
        forall|x: ItemView| item_views(r@).contains(x) ==> item_views(items@).contains(x),
        forall|x: ItemView|
            item_views(items@).contains(x) ==> has_href(item_views(r@), x.0),
{
    let mut v = items;
    sort_by_href(&mut v);
    let ghost sv = item_views(v@);
    proof {
        broadcast use vstd::seq_lib::group_to_multiset_ensures;
        assert forall|x: ItemView| sv.contains(x) <==> item_views(items@).contains(x) by {
            assert(sv.to_multiset().count(x) == item_views(items@).to_multiset().count(x));
        }
    }
    let mut out: Vec<WorkItem> = Vec::new();
    let mut i: usize = 0;
    while i < v.len()
        invariant
            sv == item_views(v@),
            sorted_by_href(sv),
            0 <= i <= v.len(),
            sorted_by_href(item_views(out@)),
            unique_hrefs(item_views(out@)),
            forall|a: int, j: int|
                0 <= a < out.len() && i <= j < v.len() ==> href_cmp(
                    #[trigger] item_views(out@)[a],
                    #[trigger] sv[j],
                ) != Ordering::Greater,
            forall|a: int| 0 <= a < out.len() ==> sv.contains(#[trigger] item_views(out@)[a]),
            forall|j: int| 0 <= j < i ==> has_href(item_views(out@), #[trigger] sv[j].0),
        decreases v.len() - i,
    {
        let ghost xv = sv[i as int];
        let ghost ov = item_views(out@);
        assert(v[i as int].view_of() == xv);
        let n = out.len();
        let keep = if n == 0 {
            true
        } else {
            assert(ov[n - 1] == out[n - 1].view_of());
            match compare_href(&out[n - 1], &v[i]) {
                Ordering::Equal => false,
                _ => true,
            }
        };
        if keep {
            out.push(v[i].duplicate());
        }
        proof {
            let nv = item_views(out@);
            if !keep {
                assert(nv == ov);
                lemma_href_equal(ov[n - 1], xv);
                assert(has_href(nv, xv.0)) by {
                    assert(nv[n - 1].0 == xv.0);
                }
                assert forall|j: int| 0 <= j < i + 1 implies has_href(nv, #[trigger] sv[j].0) by {
                    if j < i {
                        assert(has_href(ov, sv[j].0));
                    }
                }
            } else {
                assert(nv =~= ov.push(xv));
                // The href of `v[i]` is new: it compares greater than the
                // last kept one, which no earlier item exceeds.
                assert forall|a: int| 0 <= a < ov.len() implies ov[a].0 != xv.0 by {
                    let last = ov[n - 1];
                    assert(href_cmp(last, sv[i as int]) != Ordering::Greater);
                    assert(href_cmp(last, xv) != Ordering::Equal);
                    assert(href_cmp(last, xv) == Ordering::Less);
                    lemma_lex_antisymmetric(encode_utf8(last.0), encode_utf8(xv.0));
                    if a < n - 1 {
                        assert(href_cmp(ov[a], last) != Ordering::Greater);
                    } else {
                        lemma_lex_reflexive(encode_utf8(last.0));
                    }
                }
                assert forall|a: int, b: int| 0 <= a < b < nv.len() implies nv[a].0 != nv[b].0 by {
                    if b == nv.len() - 1 {
                        assert(ov[a].0 != xv.0);
                    } else {
                        assert(nv[a] == ov[a] && nv[b] == ov[b]);
                    }
                }
                assert forall|a: int, b: int| 0 <= a < b < nv.len() implies href_cmp(nv[a], nv[b])
                    != Ordering::Greater by {
                    if b == nv.len() - 1 {
                        assert(href_cmp(ov[a], sv[i as int]) != Ordering::Greater);
                    } else {
                        assert(nv[a] == ov[a] && nv[b] == ov[b]);
                    }
                }
                assert forall|a: int, j: int| 0 <= a < out.len() && i + 1 <= j < v.len() implies href_cmp(
                    #[trigger] nv[a],
                    #[trigger] sv[j],
                ) != Ordering::Greater by {
                    if a == out.len() - 1 {
                        assert(href_cmp(sv[i as int], sv[j]) != Ordering::Greater);
                    } else {
                        assert(nv[a] == ov[a]);
                    }
                }
                assert forall|a: int| 0 <= a < out.len() implies sv.contains(#[trigger] nv[a]) by {
                    if a < ov.len() {
                        assert(nv[a] == ov[a]);
                        assert(sv.contains(ov[a]));
                    } else {
                        assert(sv[i as int] == nv[a]);
                    }
                }
                assert forall|j: int| 0 <= j < i + 1 implies has_href(nv, #[trigger] sv[j].0) by {
                    if j < i {
                        assert(has_href(ov, sv[j].0));
                        let a = choose|a: int| 0 <= a < ov.len() && #[trigger] ov[a].0 == sv[j].0;
                        assert(nv[a] == ov[a]);
                    } else {
                        assert(nv[ov.len() as int].0 == sv[j].0);
                    }
                }
            }
        }
        i += 1;
    }
    proof {
        assert forall|x: ItemView| item_views(out@).contains(x) implies item_views(items@).contains(x) by {
            let a = choose|a: int| 0 <= a < out.len() && item_views(out@)[a] == x;
            assert(sv.contains(item_views(out@)[a]));
        }
        assert forall|x: ItemView| item_views(items@).contains(x) implies has_href(item_views(out@), x.0) by {
            assert(sv.contains(x));
            let j = choose|j: int| 0 <= j < sv.len() && sv[j] == x;
            assert(has_href(item_views(out@), sv[j].0));
        }
    }
    out
}

// ---------------------------------------------------------------------------
// Files to mirror
// ---------------------------------------------------------------------------
pub open spec fn checksum_view(c: Checksum) -> (Seq<char>, Seq<char>) {
    (c.algorithm@, c.sum@)
}

/// The work item of a package: its href, package size and checksum.
pub open spec fn package_item(p: Package) -> ItemView {
    (p.href@, p.size.package, p.checksum.algorithm@, p.checksum.sum@)
}

/// The work item of a delta file.
pub open spec fn delta_item(d: Delta) -> ItemView {
    (d.filename@, d.size, d.checksum.algorithm@, d.checksum.sum@)
}

fn checksum_copy(c: &Checksum) -> (r: Checksum)
    ensures
        checksum_view(r) == checksum_view(*c),
{
    Checksum { algorithm: c.algorithm.clone(), sum: c.sum.clone() }
}

impl Metadata {
    /// Whether `x` is the work item of some package.
    pub open spec fn lists(&self, x: ItemView) -> bool {
        exists|k: int| 0 <= k < self.packages.len() && package_item(#[trigger] self.packages[k]) == x
    }

    /// The files to mirror, sorted by href: one work item for each href
    /// that the packages list, taken from a package with that href.
    pub fn files(&self) -> (r: Vec<WorkItem>)
        ensures
            sorted_by_href(item_views(r@)),
            unique_hrefs(item_views(r@)),
            forall|x: ItemView| item_views(r@).contains(x) ==> self.lists(x),
            forall|x: ItemView| self.lists(x) ==> has_href(item_views(r@), x.0),
    {
        let mut raw: Vec<WorkItem> = Vec::new();
        let mut i: usize = 0;
        while i < self.packages.len()
            invariant
                0 <= i <= self.packages.len(),
                raw.len() == i,
                forall|k: int| 0 <= k < i ==> (#[trigger] raw[k]).view_of() == package_item(self.packages[k]),
            decreases self.packages.len() - i,
        {
            let p = &self.packages[i];
            raw.push(
                WorkItem { href: p.href.clone(), size: p.size.package, checksum: checksum_copy(&p.checksum) },
            );
            i += 1;
        }
        proof {
            assert forall|x: ItemView| item_views(raw@).contains(x) <==> self.lists(x) by {
                if item_views(raw@).contains(x) {
                    let k = choose|k: int| 0 <= k < raw.len() && item_views(raw@)[k] == x;
                    assert(package_item(self.packages[k]) == x);
                }
                if self.lists(x) {
                    let k = choose|k: int| 0 <= k < self.packages.len() && package_item(#[trigger] self.packages[k]) == x;
                    assert(item_views(raw@)[k] == x);
                }
            }
        }
        sorted_set(raw)
    }
}

impl PrestoDelta {
    /// Whether `x` is the work item of some delta of the first `n` new packages.
    pub open spec fn lists_before(&self, x: ItemView, n: int) -> bool {
        exists|p: int, d: int|
            0 <= p < n && p < self.new_packages.len() && 0 <= d < self.new_packages[p].deltas.len()
                && delta_item(#[trigger] self.new_packages[p].deltas[d]) == x
    }

    /// Whether `x` is the work item of some delta of some new package.
    pub open spec fn lists(&self, x: ItemView) -> bool {
        self.lists_before(x, self.new_packages.len() as int)
    }

    /// The delta files to mirror, sorted by href: one work item for each
    /// href among the deltas of all new packages, taken from a delta with
    /// that href.
    pub fn files(&self) -> (r: Vec<WorkItem>)
        ensures
            sorted_by_href(item_views(r@)),
            unique_hrefs(item_views(r@)),
            forall|x: ItemView| item_views(r@).contains(x) ==> self.lists(x),
            forall|x: ItemView| self.lists(x) ==> has_href(item_views(r@), x.0),
    {
        let mut raw: Vec<WorkItem> = Vec::new();
        let mut i: usize = 0;
        while i < self.new_packages.len()
            invariant
                0 <= i <= self.new_packages.len(),
                forall|k: int| 0 <= k < raw.len() ==> self.lists_before(#[trigger] item_views(raw@)[k], i as int),
                forall|p: int, d: int|
                    0 <= p < i && 0 <= d < self.new_packages[p].deltas.len() ==> item_views(raw@).contains(
                        delta_item(#[trigger] self.new_packages[p].deltas[d]),
                    ),
            decreases self.new_packages.len() - i,
        {
            let deltas = &self.new_packages[i].deltas;
            let mut j: usize = 0;
            let ghost before = item_views(raw@);
            while j < deltas.len()
                invariant
                    deltas == self.new_packages[i as int].deltas,
                    0 <= i < self.new_packages.len(),
                    0 <= j <= deltas.len(),
                    raw@.len() == before.len() + j,
                    forall|k: int| 0 <= k < before.len() ==> #[trigger] item_views(raw@)[k] == before[k],
                    forall|k: int| 0 <= k < j ==> #[trigger] item_views(raw@)[before.len() + k] == delta_item(deltas[k]),
                    forall|k: int| 0 <= k < before.len() ==> self.lists_before(#[trigger] before[k], i as int),
                    forall|p: int, d: int|
                        0 <= p < i && 0 <= d < self.new_packages[p].deltas.len() ==> before.contains(
                            delta_item(#[trigger] self.new_packages[p].deltas[d]),
                        ),
                decreases deltas.len() - j,
            {
                let d = &deltas[j];
                let ghost prev = item_views(raw@);
                raw.push(
                    WorkItem { href: d.filename.clone(), size: d.size, checksum: checksum_copy(&d.checksum) },
                );
                proof {
                    assert(item_views(raw@) =~= prev.push(delta_item(deltas[j as int])));
                    assert(item_views(raw@)[before.len() + j] == delta_item(deltas[j as int]));
                    assert forall|k: int| 0 <= k < j + 1 implies #[trigger] item_views(raw@)[before.len() + k]
                        == delta_item(deltas[k]) by {
                        if k < j {
                            assert(item_views(raw@)[before.len() + k] == prev[before.len() + k]);
                        }
                    }
                }
                j += 1;
            }
            proof {
                let rv = item_views(raw@);
                assert forall|k: int| 0 <= k < raw.len() implies self.lists_before(#[trigger] rv[k], i + 1) by {
                    if k < before.len() {
                        assert(rv[k] == before[k]);
                        assert(self.lists_before(before[k], i as int));
                        let (p, d) = choose|p: int, d: int|
                            0 <= p < i && p < self.new_packages.len() && 0 <= d < self.new_packages[p].deltas.len()
                                && delta_item(#[trigger] self.new_packages[p].deltas[d]) == before[k];
                        assert(delta_item(self.new_packages[p].deltas[d]) == rv[k]);
                    } else {
                        let d = k - before.len();
                        assert(rv[before.len() + d] == delta_item(deltas[d]));
                        assert(delta_item(self.new_packages[i as int].deltas[d]) == rv[k]);
                    }
                }
                assert forall|p: int, d: int|
                    0 <= p < i + 1 && 0 <= d < self.new_packages[p].deltas.len() implies rv.contains(
                        delta_item(#[trigger] self.new_packages[p].deltas[d]),
                    ) by {
                    if p < i {
                        let x = delta_item(self.new_packages[p].deltas[d]);
                        assert(before.contains(x));
                        let k = choose|k: int| 0 <= k < before.len() && before[k] == x;
                        assert(rv[k] == before[k]);
                    } else {
                        assert(rv[before.len() + d] == delta_item(deltas[d]));
                    }
                }
            }
            i += 1;
        }
        proof {
            assert forall|x: ItemView| item_views(raw@).contains(x) <==> self.lists(x) by {
                if item_views(raw@).contains(x) {
                    let k = choose|k: int| 0 <= k < raw.len() && item_views(raw@)[k] == x;
                    assert(self.lists_before(item_views(raw@)[k], i as int));
                }
                if self.lists(x) {
                    let (p, d) = choose|p: int, d: int|
                        0 <= p < self.new_packages.len() && p < self.new_packages.len() && 0 <= d < self.new_packages[p].deltas.len()
                            && delta_item(#[trigger] self.new_packages[p].deltas[d]) == x;
                    assert(item_views(raw@).contains(delta_item(self.new_packages[p].deltas[d])));
                }
            }
        }
        sorted_set(raw)
    }
}

// ---------------------------------------------------------------------------
// Verification modes
// ---------------------------------------------------------------------------
/// How much is verified of local and downloaded files.
#[derive(Debug, Clone, Copy, PartialEq, Eq)]
pub enum CheckType {
    /// Check only the size of downloaded files; accept existing local files.
    CheckRemoteSize,
    /// Also compare the size of existing local files.
    CheckSize,
    /// Also compare the checksum of existing local files and of downloads.
    CheckHash,
}

impl CheckType {
    /// Whether only downloaded files are checked, so that an up-to-date
    /// index lets the whole repository be skipped.
    pub fn remote_only(self) -> (r: bool)
        ensures
            r == (self is CheckRemoteSize),
    {
        match self {
            CheckType::CheckRemoteSize => true,
            _ => false,
        }
    }
}

/// The check made on one file.
#[derive(Debug, Clone, Copy)]
pub enum Check<'c> {
    /// A metadata file: its size is not known in advance.
    Metadata,
    /// Only the size of a download.
    RemoteSize(u64),
    /// The size of the local file and of a download.
    Size(u64),
    /// Size and checksum of the local file and of a download.
    Hash(u64, &'c Checksum),
}

impl<'c> Check<'c> {
    /// The check that a mode asks of a work item.
    pub fn for_item(mode: CheckType, item: &'c WorkItem) -> (r: Check<'c>)
        ensures
            mode is CheckRemoteSize ==> r == Check::RemoteSize(item.size),
            mode is CheckSize ==> r == Check::Size(item.size),
            mode is CheckHash ==> r == Check::Hash(item.size, &item.checksum),
    {
        match mode {
            CheckType::CheckRemoteSize => Check::RemoteSize(item.size),
            CheckType::CheckSize => Check::Size(item.size),
            CheckType::CheckHash => Check::Hash(item.size, &item.checksum),
        }
    }
}

// ---------------------------------------------------------------------------
// The shared work queue
// ---------------------------------------------------------------------------
/// The queue from which the download workers draw: each item is handed out
/// once, in order.
pub struct WorkQueue {
    items: Vec<WorkItem>,
    next: usize,
}

impl WorkQueue {
    pub closed spec fn items(&self) -> Seq<ItemView> {
        item_views(self.items@)
    }

    /// How many items have been handed out.
    pub closed spec fn taken(&self) -> int {
        self.next as int
    }

    pub closed spec fn wf(&self) -> bool {
        self.next <= self.items.len()
    }

    pub fn new(items: Vec<WorkItem>) -> (r: WorkQueue)
        ensures
            r.wf(),
            r.items() == item_views(items@),
            r.taken() == 0,
    {
        WorkQueue { items, next: 0 }
    }

    /// The next item, or `None` once all have been handed out.
    pub fn take(&mut self) -> (r: Option<WorkItem>)
        requires
            old(self).wf(),
        ensures
            final(self).wf(),
            final(self).items() == old(self).items(),
            old(self).taken() < old(self).items().len() ==> final(self).taken() == old(self).taken()
                + 1 && (r matches Some(w) && w.view_of() == old(self).items()[old(self).taken()]),
            old(self).taken() >= old(self).items().len() ==> final(self).taken() == old(self).taken()
                && r is None,
    {
        if self.next < self.items.len() {
            let w = self.items[self.next].duplicate();
            self.next = self.next + 1;
            Some(w)
        } else {
            None
        }
    }
}

} // verus!
