//! One synchronisation cycle of a (source, destination) pair: the order of
//! its phases, the up-to-date rule, and the choice of orphan files.
use vstd::prelude::*;

use crate::error::SyncError;
use crate::package::{CheckType, ItemView, Metadata, PrestoDelta, WorkItem, item_views};
use crate::repo::{Mirror, same_revision, views};

verus! {

// ---------------------------------------------------------------------------
// Phases
// ---------------------------------------------------------------------------
/// Where a cycle stands.
#[derive(Debug, Clone, Copy, PartialEq, Eq)]
pub enum Phase {
    /// Waiting for the remote index.
    FetchRemote,
    /// Waiting for the local index, if any.
    LoadLocal,
    /// Phase A: the remote metadata is staged in a scratch directory.
    StageMetadata,
    /// Phase B: the packages and deltas are downloaded into the target.
    DownloadPayloads,
    /// Phase C: the target's metadata is replaced by the staged one.
    Publish,
    /// Phase D: files that the new metadata does not reference are removed.
    Clean,
    /// The cycle succeeded.
    Done,
    /// The cycle failed; the target's metadata is what it was.
    Aborted,
}

/// What the caller observed.
#[derive(Debug, Clone, PartialEq, Eq)]
pub enum CycleEvent {
    /// The remote index was read; it carries this revision.
    RemoteIndex(Option<u64>),
    /// The local index was looked for: `None` if there is none, else its revision.
    LocalIndex(Option<Option<u64>>),
    /// The current phase completed.
    Succeeded,
    /// The current phase failed.
    Failed(SyncError),
}

/// What the caller does next.
#[derive(Debug, Clone, PartialEq, Eq)]
pub enum CycleAction {
    LoadLocalIndex,
    StageMetadata,
    DownloadPayloads,
    PublishMetadata,
    CleanOrphans,
    Finish,
    Abort(SyncError),
}

/// Whether a local mirror at `local` (if any) is current with a remote at
/// revision `remote`, so that the mode lets staging and downloads be skipped.
pub open spec fn up_to_date(remote: Option<u64>, local: Option<Option<u64>>, mode: CheckType) -> bool {
    local matches Some(l) && same_revision(remote, l) && mode is CheckRemoteSize
}

pub open spec fn cycle_accepts(phase: Phase, ev: CycleEvent) -> bool {
    match ev {
        CycleEvent::RemoteIndex(_) => phase is FetchRemote,
        CycleEvent::LocalIndex(_) => phase is LoadLocal,
        CycleEvent::Succeeded => phase is StageMetadata || phase is DownloadPayloads
            || phase is Publish || phase is Clean,
        CycleEvent::Failed(_) => !(phase is Done || phase is Aborted),
    }
}

/// One step of a cycle: the next phase and the action it asks for.
pub open spec fn cycle_step(mode: CheckType, remote: Option<u64>, phase: Phase, ev: CycleEvent) -> (
    Phase,
    CycleAction,
) {
    match ev {
        CycleEvent::Failed(e) => (Phase::Aborted, CycleAction::Abort(e)),
        CycleEvent::RemoteIndex(_) => (Phase::LoadLocal, CycleAction::LoadLocalIndex),
        CycleEvent::LocalIndex(local) => if up_to_date(remote, local, mode) {
            (Phase::Clean, CycleAction::CleanOrphans)
        } else {
            (Phase::StageMetadata, CycleAction::StageMetadata)
        },
        CycleEvent::Succeeded => match phase {
            Phase::StageMetadata => (Phase::DownloadPayloads, CycleAction::DownloadPayloads),
            Phase::DownloadPayloads => (Phase::Publish, CycleAction::PublishMetadata),
            Phase::Publish => (Phase::Clean, CycleAction::CleanOrphans),
            _ => (Phase::Done, CycleAction::Finish),
        },
    }
}

/// The progress of one cycle.
pub struct Cycle {
    pub mode: CheckType,
    /// The remote revision, once the remote index has been read.
    pub remote: Option<u64>,
    pub phase: Phase,
}

impl Cycle {
    /// Starts a cycle: the caller first reads the remote index.
    pub fn new(mode: CheckType) -> (r: Cycle)
        ensures
            r.mode == mode,
            r.remote is None,
            r.phase == Phase::FetchRemote,
    {
        Cycle { mode, remote: None, phase: Phase::FetchRemote }
    }

    /// Whether `ev` is an event that the current phase waits for.
    pub fn accepts(&self, ev: &CycleEvent) -> (r: bool)
        ensures
            r == cycle_accepts(self.phase, *ev),
    {
        match ev {
            CycleEvent::RemoteIndex(_) => matches!(self.phase, Phase::FetchRemote),
            CycleEvent::LocalIndex(_) => matches!(self.phase, Phase::LoadLocal),
            CycleEvent::Succeeded => matches!(
                self.phase,
                Phase::StageMetadata | Phase::DownloadPayloads | Phase::Publish | Phase::Clean
            ),
            CycleEvent::Failed(_) => !matches!(self.phase, Phase::Done | Phase::Aborted),
        }
    }

    /// Takes the caller's report and says what to do next.
    pub fn step(&mut self, ev: CycleEvent) -> (r: CycleAction)
        requires
            cycle_accepts(old(self).phase, ev),
        ensures
            final(self).mode == old(self).mode,
            (final(self).phase, r) == cycle_step(old(self).mode, old(self).remote, old(self).phase, ev),
            final(self).remote == match ev {
                CycleEvent::RemoteIndex(rev) => rev,
                _ => old(self).remote,
            },
    {
        let (phase, action) = match ev {
            CycleEvent::Failed(e) => (Phase::Aborted, CycleAction::Abort(e)),
            CycleEvent::RemoteIndex(rev) => {
                self.remote = rev;
                (Phase::LoadLocal, CycleAction::LoadLocalIndex)
            },
            CycleEvent::LocalIndex(local) => {
                let current = match local {
                    Some(Some(l)) => match self.remote {
                        Some(r) => r == l && self.mode.remote_only(),
                        None => false,
                    },
                    _ => false,
                };
                if current {
                    (Phase::Clean, CycleAction::CleanOrphans)
                } else {
                    (Phase::StageMetadata, CycleAction::StageMetadata)
                }
            },
            CycleEvent::Succeeded => match self.phase {
                Phase::StageMetadata => (Phase::DownloadPayloads, CycleAction::DownloadPayloads),
                Phase::DownloadPayloads => (Phase::Publish, CycleAction::PublishMetadata),
                Phase::Publish => (Phase::Clean, CycleAction::CleanOrphans),
                _ => (Phase::Done, CycleAction::Finish),
            },
        };
        self.phase = phase;
        action
    }
}

/// Failure isolation: a failure in any phase up to and including the
/// downloads aborts the cycle, and the target's metadata is replaced only on
/// the step that follows the successful completion of every download.
pub proof fn lemma_failure_isolation(
    mode: CheckType,
    remote: Option<u64>,
    phase: Phase,
    ev: CycleEvent,
)
    requires
        cycle_accepts(phase, ev),
    ensures
        ev is Failed ==> cycle_step(mode, remote, phase, ev).0 is Aborted && cycle_step(
            mode,
            remote,
            phase,
            ev,
        ).1 is Abort,
        cycle_step(mode, remote, phase, ev).1 is PublishMetadata ==> phase is DownloadPayloads
            && ev is Succeeded,
        cycle_step(mode, remote, phase, ev).1 is DownloadPayloads ==> phase is StageMetadata
            && ev is Succeeded,
        forall|e: CycleEvent| !cycle_accepts(Phase::Aborted, e),
{
}

/// Idempotence: against a remote at the same revision as the local mirror,
/// in the mode that does not re-verify local files, a cycle stages and
/// downloads nothing, and a fetch of a file that exists is not downloaded.
pub proof fn lemma_second_cycle_is_noop(
    rev: u64,
    size: u64,
    local_size: u64,
)
    ensures
        cycle_step(CheckType::CheckRemoteSize, Some(rev), Phase::LoadLocal, CycleEvent::LocalIndex(
            Some(Some(rev)),
        )) == (Phase::Clean, CycleAction::CleanOrphans),
        crate::fetch::fetch_step(
            crate::package::Check::RemoteSize(size),
            crate::fetch::FetchState::AwaitLocal,
            crate::fetch::FetchEvent::LocalSize(Some(local_size)),
        ) == (crate::fetch::FetchState::Finished, crate::fetch::FetchAction::Done),
{
}

// ---------------------------------------------------------------------------
// The cleaner
// ---------------------------------------------------------------------------
/// One entry of the walk of a target tree: its path relative to the root,
/// and whether it is a directory.
#[derive(Debug)]
pub struct WalkEntry {
    pub path: String,
    pub is_dir: bool,
}

pub open spec fn walk_views(v: Seq<WalkEntry>) -> Seq<(Seq<char>, bool)> {
    v.map_values(|e: WalkEntry| (e.path@, e.is_dir))
}

/// The regular files of the walk that the reference set does not hold, in
/// walk order.
pub open spec fn orphans_of(entries: Seq<(Seq<char>, bool)>, refs: Seq<Seq<char>>) -> Seq<Seq<char>>
    decreases entries.len(),
{
    if entries.len() == 0 {
        Seq::empty()
    } else {
        let init = orphans_of(entries.drop_last(), refs);
        let e = entries.last();
        if !e.1 && !refs.contains(e.0) {
            init.push(e.0)
        } else {
            init
        }
    }
}

/// Cleaner safety: a path is removed exactly when it is a regular file of
/// the walk that the reference set does not hold; no referenced path and no
/// directory is ever removed.
pub proof fn lemma_cleaner_safety(entries: Seq<(Seq<char>, bool)>, refs: Seq<Seq<char>>)
    ensures
        forall|p: Seq<char>|
            #[trigger] orphans_of(entries, refs).contains(p) <==> (!refs.contains(p) && exists|i: int|
                0 <= i < entries.len() && #[trigger] entries[i] == (p, false)),
    decreases entries.len(),
{
    if entries.len() > 0 {
        let init = entries.drop_last();
        lemma_cleaner_safety(init, refs);
        let e = entries.last();
        assert forall|p: Seq<char>|
            #[trigger] orphans_of(entries, refs).contains(p) <==> (!refs.contains(p) && exists|i: int|
                0 <= i < entries.len() && #[trigger] entries[i] == (p, false)) by {
            let o = orphans_of(init, refs);
            if !e.1 && !refs.contains(e.0) {
                assert(orphans_of(entries, refs) == o.push(e.0));
                crate::package::lemma_push_contains(o, e.0, p);
            }
            if exists|i: int| 0 <= i < entries.len() && #[trigger] entries[i] == (p, false) {
                let i = choose|i: int| 0 <= i < entries.len() && #[trigger] entries[i] == (p, false);
                if i < init.len() {
                    assert(init[i] == entries[i]);
                }
            }
            if exists|i: int| 0 <= i < init.len() && #[trigger] init[i] == (p, false) {
                let i = choose|i: int| 0 <= i < init.len() && #[trigger] init[i] == (p, false);
                assert(entries[i] == init[i]);
            }
        }
    }
}

/// An up-to-date mirror is left as it is: in the mode that does not
/// re-verify local files, a cycle against the same revision goes straight to
/// cleaning, and cleaning a tree whose regular files are all referenced
/// removes nothing.
pub proof fn lemma_up_to_date_changes_nothing(
    rev: u64,
    entries: Seq<(Seq<char>, bool)>,
    refs: Seq<Seq<char>>,
)
    requires
        forall|i: int| 0 <= i < entries.len() && !(#[trigger] entries[i]).1 ==> refs.contains(
            entries[i].0,
        ),
    ensures
        cycle_step(CheckType::CheckRemoteSize, Some(rev), Phase::LoadLocal, CycleEvent::LocalIndex(
            Some(Some(rev)),
        )) == (Phase::Clean, CycleAction::CleanOrphans),
        orphans_of(entries, refs).len() == 0,
{
    lemma_cleaner_safety(entries, refs);
    let o = orphans_of(entries, refs);
    if o.len() > 0 {
        assert(o.contains(o[0]));
        let i = choose|i: int| 0 <= i < entries.len() && #[trigger] entries[i] == (o[0], false);
        assert(!entries[i].1);
    }
}

/// The paths of the walk to remove: regular files not in `refs`.
pub fn orphans(refs: &Vec<String>, entries: &Vec<WalkEntry>) -> (r: Vec<String>)
    ensures
        views(r@) == orphans_of(walk_views(entries@), views(refs@)),
{
    let ghost rv = views(refs@);
    let ghost ev = walk_views(entries@);
    let mut out: Vec<String> = Vec::new();
    let mut i: usize = 0;
    while i < entries.len()
        invariant
            rv == views(refs@),
            ev == walk_views(entries@),
            0 <= i <= entries.len(),
            views(out@) == orphans_of(ev.subrange(0, i as int), rv),
        decreases entries.len() - i,
    {
        let e = &entries[i];
        assert(ev.subrange(0, i + 1).drop_last() =~= ev.subrange(0, i as int));
        assert(ev.subrange(0, i + 1).last() == (e.path@, e.is_dir));
        if !e.is_dir {
            let mut referenced = false;
            let mut j: usize = 0;
            while j < refs.len() && !referenced
                invariant
                    rv == views(refs@),
                    0 <= j <= refs.len(),
                    referenced <==> rv.subrange(0, j as int).contains(e.path@),
                decreases refs.len() - j,
            {
                proof {
                    crate::package::lemma_push_contains(rv.subrange(0, j as int), rv[j as int], e.path@);
                    assert(rv.subrange(0, j + 1) =~= rv.subrange(0, j as int).push(rv[j as int]));
                }
                if refs[j] == e.path {
                    referenced = true;
                }
                j += 1;
            }
            proof {
                if !referenced {
                    assert(rv.subrange(0, j as int) =~= rv);
                } else {
                    let k = choose|k: int| 0 <= k < j && rv.subrange(0, j as int)[k] == e.path@;
                    assert(rv[k] == e.path@);
                }
            }
            if !referenced {
                let ghost before = views(out@);
                out.push(e.path.clone());
                assert(views(out@) =~= before.push(e.path@));
            }
        }
        i += 1;
    }
    assert(ev.subrange(0, entries.len() as int) =~= ev);
    out
}

/// Whether a path is referenced by a mirror's new metadata: a metadata file,
/// a package or a delta.
pub open spec fn referenced(
    m: Mirror,
    primary: Metadata,
    deltas: Option<PrestoDelta>,
    p: Seq<char>,
) -> bool {
    ||| m.repo.meta_files_spec().contains(p)
    ||| exists|x: ItemView| primary.lists(x) && x.0 == p
    ||| (deltas matches Some(d) && exists|x: ItemView| d.lists(x) && x.0 == p)
}

pub open spec fn hrefs(items: Seq<WorkItem>) -> Seq<Seq<char>> {
    items.map_values(|w: WorkItem| w.href@)
}

proof fn lemma_add_contains<A>(a: Seq<A>, b: Seq<A>, y: A)
    ensures
        (a + b).contains(y) <==> (a.contains(y) || b.contains(y)),
{
    if (a + b).contains(y) {
        let j = choose|j: int| 0 <= j < (a + b).len() && (a + b)[j] == y;
        if j < a.len() {
            assert(a[j] == y);
        } else {
            assert(b[j - a.len()] == y);
        }
    }
    if a.contains(y) {
        let j = choose|j: int| 0 <= j < a.len() && a[j] == y;
        assert((a + b)[j] == y);
    }
    if b.contains(y) {
        let j = choose|j: int| 0 <= j < b.len() && b[j] == y;
        assert((a + b)[a.len() + j] == y);
    }
}

fn push_hrefs(out: &mut Vec<String>, items: &Vec<WorkItem>)
    ensures
        forall|p: Seq<char>|
            views(final(out)@).contains(p) <==> (views(old(out)@).contains(p) || exists|x: ItemView|
                item_views(items@).contains(x) && x.0 == p),
{
    let ghost start = views(out@);
    let mut i: usize = 0;
    while i < items.len()
        invariant
            start == views(old(out)@),
            0 <= i <= items.len(),
            views(out@) == start + hrefs(items@.subrange(0, i as int)),
        decreases items.len() - i,
    {
        let ghost before = views(out@);
        assert(before == start + hrefs(items@.subrange(0, i as int)));
        let h = items[i].href.clone();
        out.push(h);
        proof {
            assert(views(out@) =~= before.push(h@));
            assert(h@ == items@[i as int].href@);
            assert(items@.subrange(0, i + 1) =~= items@.subrange(0, i as int).push(items@[i as int]));
            assert(views(out@) =~= start + hrefs(items@.subrange(0, i + 1)));
        }
        i += 1;
    }
    proof {
        assert(items@.subrange(0, items.len() as int) =~= items@);
        assert forall|p: Seq<char>| views(out@).contains(p) <==> (start.contains(p) || exists|x: ItemView|
            item_views(items@).contains(x) && x.0 == p) by {
            lemma_add_contains(start, hrefs(items@), p);
            if hrefs(items@).contains(p) {
                let k = choose|k: int| 0 <= k < items.len() && hrefs(items@)[k] == p;
                let x = items@[k].view_of();
                assert(item_views(items@)[k] == x);
                assert(item_views(items@).contains(x));
            }
            if exists|x: ItemView| item_views(items@).contains(x) && x.0 == p {
                let x = choose|x: ItemView| item_views(items@).contains(x) && x.0 == p;
                let k = choose|k: int| 0 <= k < items.len() && item_views(items@)[k] == x;
                assert(hrefs(items@)[k] == p);
            }
        }
    }
}

impl Mirror {
    /// Every path that the new metadata references: the metadata files, the
    /// packages and, if there is a delta list, the deltas.
    pub fn referenced_files(&self, primary: &Metadata, deltas: &Option<PrestoDelta>) -> (r: Vec<String>)
        ensures
            forall|p: Seq<char>| #[trigger] views(r@).contains(p) <==> referenced(*self, *primary, *deltas, p),
    {
        let mut out = self.repo.meta_files();
        let ghost meta = views(out@);
        let files = primary.files();
        push_hrefs(&mut out, &files);
        let ghost mid = views(out@);
        proof {
            assert forall|p: Seq<char>| #[trigger] mid.contains(p) <==> (meta.contains(p) || exists|x: ItemView|
                primary.lists(x) && x.0 == p) by {
                if exists|x: ItemView| primary.lists(x) && x.0 == p {
                    let x = choose|x: ItemView| primary.lists(x) && x.0 == p;
                    let fv = item_views(files@);
                    let a = choose|a: int| 0 <= a < fv.len() && #[trigger] fv[a].0 == x.0;
                    assert(fv.contains(fv[a]));
                }
                if exists|x: ItemView| item_views(files@).contains(x) && x.0 == p {
                    let x = choose|x: ItemView| item_views(files@).contains(x) && x.0 == p;
                    assert(primary.lists(x));
                }
            }
        }
        match deltas {
            Some(d) => {
                let dfiles = d.files();
                push_hrefs(&mut out, &dfiles);
                proof {
                    assert forall|p: Seq<char>| #[trigger] views(out@).contains(p) <==> referenced(
                        *self,
                        *primary,
                        *deltas,
                        p,
                    ) by {
                        assert(mid.contains(p) == (meta.contains(p) || exists|x: ItemView|
                            primary.lists(x) && x.0 == p));
                        if exists|x: ItemView| d.lists(x) && x.0 == p {
                            let x = choose|x: ItemView| d.lists(x) && x.0 == p;
                            let fv = item_views(dfiles@);
                            let a = choose|a: int| 0 <= a < fv.len() && #[trigger] fv[a].0 == x.0;
                            assert(fv.contains(fv[a]));
                        }
                        if exists|x: ItemView| item_views(dfiles@).contains(x) && x.0 == p {
                            let x = choose|x: ItemView| item_views(dfiles@).contains(x) && x.0 == p;
                            assert(d.lists(x));
                        }
                    }
                }
            },
            None => {
                proof {
                    assert forall|p: Seq<char>| #[trigger] views(out@).contains(p) <==> referenced(
                        *self,
                        *primary,
                        *deltas,
                        p,
                    ) by {
                        assert(mid.contains(p) == (meta.contains(p) || exists|x: ItemView|
                            primary.lists(x) && x.0 == p));
                    }
                }
            },
        }
        out
    }

    /// The files of the walked target tree that the new metadata does not
    /// reference, which the cleaner removes.
    pub fn orphans(&self, primary: &Metadata, deltas: &Option<PrestoDelta>, walked: &Vec<WalkEntry>) -> (r: Vec<String>)
        ensures
            forall|p: Seq<char>| #[trigger] views(r@).contains(p) <==> (!referenced(*self, *primary, *deltas, p)
                && exists|i: int| 0 <= i < walked.len() && #[trigger] walk_views(walked@)[i] == (p, false)),
    {
        let refs = self.referenced_files(primary, deltas);
        let r = orphans(&refs, walked);
        proof {
            lemma_cleaner_safety(walk_views(walked@), views(refs@));
        }
        r
    }
}

// ---------------------------------------------------------------------------
// Publication of the staged metadata
// ---------------------------------------------------------------------------
/// The names of the regular files among the entries of a directory, in order.
pub open spec fn regular_files(entries: Seq<(Seq<char>, bool)>) -> Seq<Seq<char>>
    decreases entries.len(),
{
    if entries.len() == 0 {
        Seq::empty()
    } else {
        let init = regular_files(entries.drop_last());
        if !entries.last().1 {
            init.push(entries.last().0)
        } else {
            init
        }
    }
}

/// The file operations that replace the target's metadata directory by the
/// staged one.
#[derive(Debug)]
pub struct PublishPlan {
    /// The directory does not exist yet and is created.
    pub create_dir: bool,
    /// Regular files of the target directory to remove; subdirectories stay.
    pub remove: Vec<String>,
    /// Staged files to copy into the target directory.
    pub copy: Vec<String>,
}

/// What the target directory holds once a plan has run over the regular
/// files `before`: they lose the removed names and gain the copied ones.
pub open spec fn published(before: Set<Seq<char>>, plan: PublishPlan) -> Set<Seq<char>> {
    before.difference(views(plan.remove@).to_set()).union(views(plan.copy@).to_set())
}

fn regular_file_names(entries: &Vec<WalkEntry>) -> (r: Vec<String>)
    ensures
        views(r@) == regular_files(walk_views(entries@)),
{
    let ghost ev = walk_views(entries@);
    let mut out: Vec<String> = Vec::new();
    let mut i: usize = 0;
    while i < entries.len()
        invariant
            ev == walk_views(entries@),
            0 <= i <= entries.len(),
            views(out@) == regular_files(ev.subrange(0, i as int)),
        decreases entries.len() - i,
    {
        assert(ev.subrange(0, i + 1).drop_last() =~= ev.subrange(0, i as int));
        assert(ev.subrange(0, i + 1).last() == (entries[i as int].path@, entries[i as int].is_dir));
        if !entries[i].is_dir {
            let ghost before = views(out@);
            out.push(entries[i].path.clone());
            assert(views(out@) =~= before.push(entries[i as int].path@));
        }
        i += 1;
    }
    assert(ev.subrange(0, entries.len() as int) =~= ev);
    out
}

/// Plans the publication: the target's metadata directory (`None` when it
/// does not exist) loses every regular file and receives every staged one.
pub fn publish_plan(target: &Option<Vec<WalkEntry>>, staged: &Vec<WalkEntry>) -> (r: PublishPlan)
    ensures
        r.create_dir == (target is None),
        views(r.remove@) == match target {
            Some(t) => regular_files(walk_views(t@)),
            None => Seq::empty(),
        },
        views(r.copy@) == regular_files(walk_views(staged@)),
{
    let (create_dir, remove) = match target {
        Some(t) => (false, regular_file_names(t)),
        None => {
            let none: Vec<String> = Vec::new();
            assert(views(none@) =~= Seq::<Seq<char>>::empty());
            (true, none)
        },
    };
    PublishPlan { create_dir, remove, copy: regular_file_names(staged) }
}

/// Publication makes the set of metadata files in the target exactly the
/// set of staged files, whatever the target held before.
pub proof fn lemma_publish_matches_staging(target: Option<Vec<WalkEntry>>, staged: Vec<WalkEntry>, plan: PublishPlan)
    requires
        plan.create_dir == (target is None),
        views(plan.remove@) == match target {
            Some(t) => regular_files(walk_views(t@)),
            None => Seq::empty(),
        },
        views(plan.copy@) == regular_files(walk_views(staged@)),
    ensures
        published(
            match target {
                Some(t) => regular_files(walk_views(t@)).to_set(),
                None => Set::empty(),
            },
            plan,
        ) == regular_files(walk_views(staged@)).to_set(),
{
    let before = match target {
        Some(t) => regular_files(walk_views(t@)).to_set(),
        None => Set::<Seq<char>>::empty(),
    };
    assert(before.difference(views(plan.remove@).to_set()) =~= Set::empty());
    assert(published(before, plan) =~= regular_files(walk_views(staged@)).to_set());
}

} // verus!
