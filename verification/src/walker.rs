//! The directory walk as a work list: which directory to read next, and what
//! one directory's listing adds to the walk. Reading directories is left to
//! the caller, who reports each listing or its failure back.

use vstd::prelude::*;
use vstd::seq_lib::{lemma_multiset_commutative, to_multiset_build};
use crate::classifier::{is_candidate, is_image_file};
use crate::inflight::InFlight;
use crate::permutation::lemma_empty_multiset;
use crate::failure::{Failure, FailureKind, FailureView};
use crate::gate::{AdmissionGate, MAX_CONCURRENT_TASKS};

verus! {

/// One entry of a directory listing.
#[derive(Debug)]
pub struct Entry {
    /// The entry's full path.
    pub path: String,
    /// Whether the entry is itself a directory.
    pub is_dir: bool,
}

/// The mathematical value of an `Entry`.
pub ghost struct EntryView {
    pub path: Seq<char>,
    pub is_dir: bool,
}

impl View for Entry {
    type V = EntryView;

    open spec fn view(&self) -> EntryView {
        EntryView { path: self.path@, is_dir: self.is_dir }
    }
}

impl DeepView for Entry {
    type V = EntryView;

    open spec fn deep_view(&self) -> EntryView {
        self@
    }
}

/// The path of `entry` if it is a file that the classifier accepts.
pub open spec fn image_path_of(entry: EntryView) -> Option<Seq<char>> {
    if !entry.is_dir && is_candidate(entry.path) {
        Some(entry.path)
    } else {
        None
    }
}

/// The path of `entry` if it is a directory.
pub open spec fn directory_path_of(entry: EntryView) -> Option<Seq<char>> {
    if entry.is_dir {
        Some(entry.path)
    } else {
        None
    }
}

/// The candidate images of a listing, in the listing's order.
pub open spec fn image_paths(entries: Seq<EntryView>) -> Seq<Seq<char>> {
    entries.filter_map(|e: EntryView| image_path_of(e))
}

/// The subdirectories of a listing, in the listing's order.
pub open spec fn subdirectories(entries: Seq<EntryView>) -> Seq<Seq<char>> {
    entries.filter_map(|e: EntryView| directory_path_of(e))
}

/// What one directory's listing contributes to a walk.
#[derive(Debug)]
pub struct LevelScan {
    /// The candidate images directly inside the directory.
    pub images: Vec<String>,
    /// The directories directly inside it, still to be visited.
    pub directories: Vec<String>,
}

/// Sorts the entries of one directory into candidate images and
/// subdirectories; every other entry is left out. Both lists keep the order of
/// the listing.
pub fn scan_directory(entries: &Vec<Entry>) -> (level: LevelScan)
    ensures
        level.images.deep_view() == image_paths(entries.deep_view()),
        level.directories.deep_view() == subdirectories(entries.deep_view()),
{
    let mut images: Vec<String> = Vec::new();
    let mut directories: Vec<String> = Vec::new();
    let ghost all = entries.deep_view();
    let mut i: usize = 0;
    while i < entries.len()
        invariant
            i <= entries.len(),
            all == entries.deep_view(),
            images.deep_view() == image_paths(all.take(i as int)),
            directories.deep_view() == subdirectories(all.take(i as int)),
        decreases entries.len() - i,
    {
        let ghost before_images = images.deep_view();
        let ghost before_directories = directories.deep_view();
        proof {
            assert(all.take(i + 1).drop_last() == all.take(i as int));
            assert(all.take(i + 1).last() == entries[i as int]@);
        }
        if entries[i].is_dir {
            directories.push(entries[i].path.clone());
            assert(directories.deep_view() == before_directories + seq![entries[i as int].path@]);
        } else if is_image_file(entries[i].path.as_str()) {
            images.push(entries[i].path.clone());
            assert(images.deep_view() == before_images + seq![entries[i as int].path@]);
        }
        i = i + 1;
    }
    assert(all.take(entries.len() as int) == all);
    LevelScan { images, directories }
}

/// A walk over a directory tree in progress.
///
/// Directories wait in a work list until a permit is free for them; a
/// directory that finds no free permit stays in the list. The caller reads
/// each directory that `next_directory` hands out and reports back with
/// `directory_listed` or `directory_failed`.
pub struct Walker {
    pending: Vec<String>,
    out: InFlight,
    gate: AdmissionGate,
    images: Vec<String>,
    failures: Vec<Failure>,
    discovered: Ghost<Seq<Seq<char>>>,
    visited: Ghost<Seq<Seq<char>>>,
}

impl Walker {
    /// Directories found and not yet handed out; the last one goes out next.
    pub closed spec fn pending(&self) -> Seq<Seq<char>> {
        self.pending.deep_view()
    }

    /// Directories handed out and not yet reported back.
    pub closed spec fn in_flight(&self) -> Seq<Seq<char>> {
        self.out@
    }

    /// Largest number of directories that may be out at the same time.
    pub closed spec fn limit(&self) -> nat {
        self.gate.capacity()
    }

    /// The candidate images found so far, in the order they were reported.
    pub closed spec fn images(&self) -> Seq<Seq<char>> {
        self.images.deep_view()
    }

    /// The directories that could not be read, in the order they were reported.
    pub closed spec fn failures(&self) -> Seq<FailureView> {
        self.failures.deep_view()
    }

    /// The directories the walk has learnt of, the root first.
    pub closed spec fn discovered(&self) -> Seq<Seq<char>> {
        self.discovered@
    }

    /// The directories whose reading has been reported back, as listed or as
    /// failed, in the order of the reports.
    pub closed spec fn visited(&self) -> Seq<Seq<char>> {
        self.visited@
    }

    /// No directory is ever dropped or taken twice: each one the walk has
    /// learnt of is waiting, out for reading, or done.
    pub open spec fn accounted(&self) -> bool {
        self.discovered().to_multiset() == self.pending().to_multiset().add(
            self.in_flight().to_multiset(),
        ).add(self.visited().to_multiset())
    }

    /// Every directory is accounted for, and one permit is held for each
    /// directory that is out.
    pub closed spec fn wf(&self) -> bool {
        &&& self.gate.wf()
        &&& self.out@.len() == self.gate.in_use()
        &&& self.accounted()
    }

    /// What the invariant of a walk says: every directory is accounted for,
    /// and no more directories are out than there are permits.
    pub proof fn lemma_walk_invariant(&self)
        requires
            self.wf(),
        ensures
            self.accounted(),
            self.in_flight().len() <= self.limit(),
    {
    }

    /// The walk is over: nothing waits and nothing is out.
    pub open spec fn finished(&self) -> bool {
        self.pending().len() == 0 && self.in_flight().len() == 0
    }

    /// In a finished walk every directory that was found has been visited,
    /// and as often as it was found: a tree in which no directory is listed
    /// twice has each of its directories visited exactly once.
    pub proof fn lemma_finished_walk_is_complete(&self)
        requires
            self.wf(),
            self.finished(),
        ensures
            self.visited().to_multiset() == self.discovered().to_multiset(),
            self.visited().len() == self.discovered().len(),
    {
        broadcast use vstd::multiset::group_multiset_axioms;

        lemma_empty_multiset(self.pending.deep_view());
        lemma_empty_multiset(self.out@);
        assert(self.visited@.to_multiset() =~= self.discovered@.to_multiset());
        self.visited@.to_multiset_ensures();
        self.discovered@.to_multiset_ensures();
    }

    /// The directory that goes out next, if a permit is free: the one found
    /// last. Returns `None` when no directory waits or when as many
    /// directories are out as there are permits; the walk is then unchanged.
    pub fn next_directory(&mut self) -> (next: Option<String>)
        requires
            old(self).wf(),
        ensures
            final(self).wf(),
            final(self).limit() == old(self).limit(),
            final(self).images() == old(self).images(),
            final(self).failures() == old(self).failures(),
            final(self).discovered() == old(self).discovered(),
            final(self).visited() == old(self).visited(),
            next is Some <==> old(self).pending().len() > 0 && old(self).in_flight().len() < old(
                self,
            ).limit(),
            next matches Some(dir) ==> {
                &&& dir@ == old(self).pending().last()
                &&& final(self).pending() == old(self).pending().drop_last()
                &&& final(self).in_flight() == old(self).in_flight().push(dir@)
            },
            next is None ==> {
                &&& final(self).pending() == old(self).pending()
                &&& final(self).in_flight() == old(self).in_flight()
            },
    {
        if self.pending.len() == 0 {
            return None;
        }
        if !self.gate.try_acquire() {
            return None;
        }
        let ghost before = self.pending.deep_view();
        let dir = self.pending.pop().unwrap();
        self.out.send_out(dir.clone());
        proof {
            broadcast use vstd::multiset::group_multiset_axioms;

            let shorter = self.pending.deep_view();
            assert(shorter == before.drop_last());
            assert(before == shorter.push(dir@));
            to_multiset_build(shorter, dir@);
            assert(shorter.to_multiset().add(self.out@.to_multiset()) =~= before.to_multiset().add(
                old(self).out@.to_multiset(),
            ));
        }
        Some(dir)
    }

    /// Takes in the listing of `dir` if `dir` is out: its subdirectories join
    /// the work list, its candidate images join the results, and its permit
    /// is free again. A report on a directory that is not out is refused and
    /// changes nothing.
    pub fn directory_listed(&mut self, dir: &String, entries: &Vec<Entry>) -> (accepted: bool)
        requires
            old(self).wf(),
        ensures
            final(self).wf(),
            final(self).limit() == old(self).limit(),
            final(self).failures() == old(self).failures(),
            accepted == old(self).in_flight().contains(dir@),
            accepted ==> {
                &&& final(self).in_flight().len() == old(self).in_flight().len() - 1
                &&& final(self).in_flight().to_multiset() == old(
                    self,
                ).in_flight().to_multiset().remove(dir@)
                &&& final(self).pending() == old(self).pending() + subdirectories(
                    entries.deep_view(),
                )
                &&& final(self).images() == old(self).images() + image_paths(entries.deep_view())
                &&& final(self).discovered() == old(self).discovered() + subdirectories(
                    entries.deep_view(),
                )
                &&& final(self).visited() == old(self).visited().push(dir@)
            },
            !accepted ==> {
                &&& final(self).in_flight() == old(self).in_flight()
                &&& final(self).pending() == old(self).pending()
                &&& final(self).images() == old(self).images()
                &&& final(self).discovered() == old(self).discovered()
                &&& final(self).visited() == old(self).visited()
            },
    {
        let ghost out_before = self.out@;
        if !self.out.retire(dir) {
            return false;
        }
        let mut level = scan_directory(entries);
        let ghost pending_before = self.pending.deep_view();
        let ghost images_before = self.images.deep_view();
        let ghost found = level.directories.deep_view();
        let ghost accepted = level.images.deep_view();
        self.pending.append(&mut level.directories);
        self.images.append(&mut level.images);
        self.gate.release();
        proof {
            broadcast use vstd::multiset::group_multiset_axioms;

            assert(self.pending.deep_view() == pending_before + found);
            assert(self.images.deep_view() == images_before + accepted);
            out_before.to_multiset_ensures();
            lemma_multiset_commutative(pending_before, found);
            lemma_multiset_commutative(self.discovered@, found);
            to_multiset_build(self.visited@, dir@);
            assert((self.discovered@ + found).to_multiset() =~= (pending_before
                + found).to_multiset().add(self.out@.to_multiset()).add(
                self.visited@.push(dir@).to_multiset(),
            ));
        }
        self.discovered = Ghost(self.discovered@ + found);
        self.visited = Ghost(self.visited@.push(dir@));
        true
    }

    /// Records that `dir` could not be read, if `dir` is out. Only that
    /// directory is lost to the walk; its permit is free again. A report on a
    /// directory that is not out is refused and changes nothing.
    pub fn directory_failed(&mut self, dir: String, reason: String) -> (accepted: bool)
        requires
            old(self).wf(),
        ensures
            final(self).wf(),
            final(self).limit() == old(self).limit(),
            final(self).pending() == old(self).pending(),
            final(self).images() == old(self).images(),
            final(self).discovered() == old(self).discovered(),
            accepted == old(self).in_flight().contains(dir@),
            accepted ==> {
                &&& final(self).in_flight().len() == old(self).in_flight().len() - 1
                &&& final(self).in_flight().to_multiset() == old(
                    self,
                ).in_flight().to_multiset().remove(dir@)
                &&& final(self).failures() == old(self).failures().push(
                    FailureView {
                        kind: FailureKind::DirectoryUnreadable,
                        path: dir@,
                        reason: reason@,
                    },
                )
                &&& final(self).visited() == old(self).visited().push(dir@)
            },
            !accepted ==> {
                &&& final(self).in_flight() == old(self).in_flight()
                &&& final(self).failures() == old(self).failures()
                &&& final(self).visited() == old(self).visited()
            },
    {
        let ghost out_before = self.out@;
        if !self.out.retire(&dir) {
            return false;
        }
        let ghost before = self.failures.deep_view();
        let ghost name = dir@;
        let failure = Failure::new(FailureKind::DirectoryUnreadable, dir, reason);
        self.failures.push(failure);
        self.gate.release();
        proof {
            broadcast use vstd::multiset::group_multiset_axioms;

            assert(self.failures.deep_view() == before.push(failure@));
            out_before.to_multiset_ensures();
            to_multiset_build(self.visited@, name);
            assert(self.discovered@.to_multiset() =~= self.pending.deep_view().to_multiset().add(
                self.out@.to_multiset(),
            ).add(self.visited@.push(name).to_multiset()));
        }
        self.visited = Ghost(self.visited@.push(name));
        true
    }

    /// Whether the walk is over.
    pub fn is_finished(&self) -> (done: bool)
        requires
            self.wf(),
        ensures
            done == self.finished(),
    {
        self.pending.len() == 0 && self.out.len() == 0
    }

    /// Number of directories that are out for reading.
    pub fn directories_in_flight(&self) -> (n: usize)
        ensures
            n == self.in_flight().len(),
    {
        self.out.len()
    }

    /// Number of directories that wait in the work list.
    pub fn directories_pending(&self) -> (n: usize)
        ensures
            n == self.pending().len(),
    {
        self.pending.len()
    }

    /// Ends the walk and hands out what it found: the candidate images and
    /// the directories that could not be read.
    pub fn into_results(self) -> (results: (Vec<String>, Vec<Failure>))
        ensures
            results.0.deep_view() == self.images(),
            results.1.deep_view() == self.failures(),
    {
        (self.images, self.failures)
    }
}

/// Starts a walk at `root`: the root is the one directory that waits, nothing
/// is out, and nothing has been found.
pub fn visit(root: String) -> (walker: Walker)
    ensures
        walker.wf(),
        walker.pending() == seq![root@],
        walker.in_flight() == Seq::<Seq<char>>::empty(),
        walker.limit() == MAX_CONCURRENT_TASKS,
        walker.images() == Seq::<Seq<char>>::empty(),
        walker.failures() == Seq::<FailureView>::empty(),
        walker.discovered() == seq![root@],
        walker.visited() == Seq::<Seq<char>>::empty(),
{
    let ghost first = Seq::<Seq<char>>::empty().push(root@);
    let mut pending: Vec<String> = Vec::new();
    pending.push(root);
    let walker = Walker {
        pending,
        out: InFlight::new(),
        gate: AdmissionGate::new(MAX_CONCURRENT_TASKS),
        images: Vec::new(),
        failures: Vec::new(),
        discovered: Ghost(first),
        visited: Ghost(Seq::empty()),
    };
    proof {
        broadcast use vstd::multiset::group_multiset_axioms;

        assert(walker.pending.deep_view() == seq![root@]);
        assert(first == seq![root@]);
        assert(walker.images.deep_view() == Seq::<Seq<char>>::empty());
        assert(walker.failures.deep_view() == Seq::<FailureView>::empty());
        lemma_empty_multiset(walker.out@);
        lemma_empty_multiset(walker.visited@);
        assert(walker.discovered@.to_multiset() =~= walker.pending.deep_view().to_multiset().add(
            walker.out@.to_multiset(),
        ).add(walker.visited@.to_multiset()));
    }
    walker
}

} // verus!
