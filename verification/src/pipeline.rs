//! The orchestrator of a scan: it hands the submitted paths out to a bounded
//! pool of workers, merges what each worker reports into the hash buckets or
//! the failure list, and advances the progress.

use image::DynamicImage;
use vstd::prelude::*;
use vstd::seq_lib::to_multiset_build;
use crate::buckets::{bucket_union, fingerprints, lemma_buckets_hold_recorded_paths, recorded_paths, HashBuckets};
use crate::failure::{Failure, FailureKind, FailureView};
use crate::fingerprint::{compute_dhash, fingerprint_of, luminance, reason_text, Fingerprint};
use crate::gate::AdmissionGate;
use crate::inflight::InFlight;
use crate::permutation::lemma_empty_multiset;
use crate::progress::{advanced, fresh, Progress, ProgressView};
use crate::walker::Walker;

verus! {

/// What becomes of one unit of work: the fingerprint of its image, or the
/// kind of failure and the reason for it. A file that could not be decoded
/// is a decode failure with the decoder's reason; decoded pixel data that
/// cannot be fingerprinted is a fingerprint failure.
pub open spec fn outcome_of(decoded: Result<DynamicImage, String>) -> Result<
    Fingerprint,
    (FailureKind, Seq<char>),
> {
    match decoded {
        Ok(image) => match fingerprint_of(luminance(image)) {
            Ok(fingerprint) => Ok(fingerprint),
            Err(error) => Err((FailureKind::FingerprintFailure, reason_text(error))),
        },
        Err(reason) => Err((FailureKind::DecodeFailure, reason@)),
    }
}

/// The mathematical value of what a worker reports.
pub open spec fn outcome_view(outcome: Result<Fingerprint, (FailureKind, String)>) -> Result<
    Fingerprint,
    (FailureKind, Seq<char>),
> {
    match outcome {
        Ok(fingerprint) => Ok(fingerprint),
        Err(failure) => Err((failure.0, failure.1@)),
    }
}

/// The records after a unit on `path` has ended with `outcome`: a
/// fingerprinted image is recorded, a failed one is not.
pub open spec fn records_after(
    records: Seq<(u64, Seq<char>)>,
    path: Seq<char>,
    outcome: Result<Fingerprint, (FailureKind, Seq<char>)>,
) -> Seq<(u64, Seq<char>)> {
    match outcome {
        Ok(fingerprint) => records.push((fingerprint.bits, path)),
        Err(_) => records,
    }
}

/// The failures after a unit on `path` has ended with `outcome`: a failed
/// unit is listed with its kind and reason.
pub open spec fn failures_after(
    failures: Seq<FailureView>,
    path: Seq<char>,
    outcome: Result<Fingerprint, (FailureKind, Seq<char>)>,
) -> Seq<FailureView> {
    match outcome {
        Ok(_) => failures,
        Err(failure) => failures.push(FailureView { kind: failure.0, path, reason: failure.1 }),
    }
}

/// The fingerprint of a decoded image, or why there is none: the decoder's
/// own failure is passed on as a decode failure.
pub fn compute_image_hash(decoded: &Result<DynamicImage, String>) -> (outcome: Result<
    Fingerprint,
    (FailureKind, String),
>)
    ensures
        outcome_view(outcome) == outcome_of(*decoded),
{
    match decoded {
        Ok(image) => match compute_dhash(image) {
            Ok(fingerprint) => Ok(fingerprint),
            Err(error) => Err((FailureKind::FingerprintFailure, error.reason())),
        },
        Err(reason) => Err((FailureKind::DecodeFailure, reason.clone())),
    }
}

/// What a finished scan returns.
pub struct ScanReport {
    /// The fingerprinted images, grouped by fingerprint.
    pub buckets: HashBuckets,
    /// The progress of the scan: complete.
    pub progress: Progress,
    /// The files that could not be fingerprinted, in the order of completion.
    pub failures: Vec<Failure>,
}

/// The paths of `failures`, in their order.
pub open spec fn failed_paths(failures: Seq<FailureView>) -> Seq<Seq<char>> {
    failures.map_values(|failure: FailureView| failure.path)
}

/// A scan in progress.
pub struct Scan {
    queue: Vec<String>,
    next: usize,
    out: InFlight,
    workers: AdmissionGate,
    buckets: HashBuckets,
    progress: Progress,
    failures: Vec<Failure>,
    inherited: Ghost<nat>,
}

impl Scan {
    /// The submitted paths, in the order in which they go out.
    pub closed spec fn submitted(&self) -> Seq<Seq<char>> {
        self.queue.deep_view()
    }

    /// Number of paths handed out so far.
    pub closed spec fn handed_out(&self) -> nat {
        self.next as nat
    }

    /// The paths that are with a worker.
    pub closed spec fn in_flight(&self) -> Seq<Seq<char>> {
        self.out@
    }

    /// Size of the worker pool.
    pub closed spec fn pool_size(&self) -> nat {
        self.workers.capacity()
    }

    /// The images recorded so far: fingerprint bits and path.
    pub closed spec fn records(&self) -> Seq<(u64, Seq<char>)> {
        self.buckets@
    }

    /// The failures that the scan took over from the walk before it.
    pub closed spec fn walk_failures(&self) -> Seq<FailureView> {
        self.failures.deep_view().take(self.inherited@ as int)
    }

    /// The failures of the scan's own units, in the order of completion.
    pub closed spec fn unit_failures(&self) -> Seq<FailureView> {
        self.failures.deep_view().skip(self.inherited@ as int)
    }

    /// All failures: those of the walk, then those of the units.
    pub open spec fn failures(&self) -> Seq<FailureView> {
        self.walk_failures() + self.unit_failures()
    }

    /// The progress of the scan.
    pub closed spec fn progress(&self) -> ProgressView {
        self.progress@
    }

    /// Every path that was handed out is in exactly one place: in a bucket,
    /// in the failure list, or still with a worker.
    pub open spec fn accounted(&self) -> bool {
        recorded_paths(self.records()).to_multiset().add(
            failed_paths(self.unit_failures()).to_multiset(),
        ).add(self.in_flight().to_multiset()) == self.submitted().take(
            self.handed_out() as int,
        ).to_multiset()
    }

    /// Every submitted unit waits, is with a worker, or has completed; the
    /// progress counts the completed ones out of all that were submitted;
    /// one worker is taken for each path that is out; and every path that
    /// was handed out is accounted for.
    pub closed spec fn wf(&self) -> bool {
        &&& self.workers.wf()
        &&& self.buckets.wf()
        &&& self.progress.wf()
        &&& self.next <= self.queue.len()
        &&& self.progress@.total == self.queue.len()
        &&& self.out@.len() == self.workers.in_use()
        &&& self.next == self.out@.len() + self.progress@.completed
        &&& self.inherited@ <= self.failures.len()
        &&& self.accounted()
    }

    /// Every submitted unit has completed.
    pub open spec fn finished(&self) -> bool {
        self.progress().completed == self.progress().total
    }

    /// What the invariant of a scan says of its counts and paths.
    pub proof fn lemma_scan_invariant(&self)
        requires
            self.wf(),
        ensures
            self.accounted(),
            self.handed_out() <= self.submitted().len(),
            self.progress().total == self.submitted().len(),
            self.handed_out() == self.in_flight().len() + self.progress().completed,
            self.in_flight().len() <= self.pool_size(),
    {
    }

    /// In a finished scan nothing is with a worker, and the buckets and the
    /// failure list divide the submitted paths between them.
    pub proof fn lemma_finished_scan_is_complete(&self)
        requires
            self.wf(),
            self.finished(),
        ensures
            self.in_flight().len() == 0,
            self.handed_out() == self.submitted().len(),
            recorded_paths(self.records()).to_multiset().add(
                failed_paths(self.unit_failures()).to_multiset(),
            ) == self.submitted().to_multiset(),
    {
        broadcast use vstd::multiset::group_multiset_axioms;

        lemma_empty_multiset(self.out@);
        assert(self.submitted().take(self.submitted().len() as int) == self.submitted());
        assert(recorded_paths(self.records()).to_multiset().add(
            failed_paths(self.unit_failures()).to_multiset(),
        ) =~= self.submitted().to_multiset());
    }

    /// The scan of `queue` by `workers` workers that begins with `failures`
    /// in its failure list.
    fn start(queue: Vec<String>, failures: Vec<Failure>, workers: usize) -> (scan: Scan)
        ensures
            scan.wf(),
            scan.submitted() == queue.deep_view(),
            scan.handed_out() == 0,
            scan.in_flight() == Seq::<Seq<char>>::empty(),
            scan.pool_size() == workers,
            scan.records() == Seq::<(u64, Seq<char>)>::empty(),
            scan.walk_failures() == failures.deep_view(),
            scan.unit_failures() == Seq::<FailureView>::empty(),
            scan.progress() == fresh(queue.len() as nat),
    {
        let total = queue.len();
        let ghost inherited = failures.len() as nat;
        let scan = Scan {
            queue,
            next: 0,
            out: InFlight::new(),
            workers: AdmissionGate::new(workers),
            buckets: HashBuckets::new(),
            progress: Progress::new(total),
            failures,
            inherited: Ghost(inherited),
        };
        proof {
            broadcast use vstd::multiset::group_multiset_axioms;

            assert(scan.walk_failures() == failures.deep_view());
            assert(scan.unit_failures() == Seq::<FailureView>::empty());
            assert(recorded_paths(scan.records()) == Seq::<Seq<char>>::empty());
            assert(failed_paths(scan.unit_failures()) == Seq::<Seq<char>>::empty());
            lemma_empty_multiset(recorded_paths(scan.records()));
            lemma_empty_multiset(failed_paths(scan.unit_failures()));
            lemma_empty_multiset(scan.in_flight());
            lemma_empty_multiset(scan.submitted().take(0));
            assert(recorded_paths(scan.records()).to_multiset().add(
                failed_paths(scan.unit_failures()).to_multiset(),
            ).add(scan.in_flight().to_multiset()) =~= scan.submitted().take(0).to_multiset());
        }
        scan
    }

    /// A scan of `paths` by a pool of `workers` workers. The number of paths
    /// is the total that progress is measured against.
    pub fn new(paths: Vec<String>, workers: usize) -> (scan: Scan)
        ensures
            scan.wf(),
            scan.submitted() == paths.deep_view(),
            scan.handed_out() == 0,
            scan.in_flight() == Seq::<Seq<char>>::empty(),
            scan.pool_size() == workers,
            scan.records() == Seq::<(u64, Seq<char>)>::empty(),
            scan.walk_failures() == Seq::<FailureView>::empty(),
            scan.unit_failures() == Seq::<FailureView>::empty(),
            scan.progress() == fresh(paths.len() as nat),
    {
        let none: Vec<Failure> = Vec::new();
        assert(none.deep_view() == Seq::<FailureView>::empty());
        Scan::start(paths, none, workers)
    }

    /// The scan that follows a finished walk: the images that the walk found
    /// are the units, in the order in which they were found, and the
    /// directories that it could not read begin the failure list. A walk that
    /// is not over is handed back, since the total is not known yet.
    pub fn after_walk(walker: Walker, workers: usize) -> (result: Result<Scan, Walker>)
        requires
            walker.wf(),
        ensures
            result is Ok <==> walker.finished(),
            result matches Ok(scan) ==> {
                &&& scan.wf()
                &&& scan.submitted() == walker.images()
                &&& scan.handed_out() == 0
                &&& scan.in_flight() == Seq::<Seq<char>>::empty()
                &&& scan.pool_size() == workers
                &&& scan.records() == Seq::<(u64, Seq<char>)>::empty()
                &&& scan.walk_failures() == walker.failures()
                &&& scan.unit_failures() == Seq::<FailureView>::empty()
                &&& scan.progress() == fresh(walker.images().len())
            },
            result matches Err(unfinished) ==> unfinished == walker,
    {
        if !walker.is_finished() {
            return Err(walker);
        }
        let (images, failures) = walker.into_results();
        Ok(Scan::start(images, failures, workers))
    }

    /// The next path for a worker, if a path waits and a worker is free;
    /// otherwise `None`, and the scan is unchanged.
    pub fn next_unit(&mut self) -> (unit: Option<String>)
        requires
            old(self).wf(),
        ensures
            final(self).wf(),
            final(self).submitted() == old(self).submitted(),
            final(self).pool_size() == old(self).pool_size(),
            final(self).records() == old(self).records(),
            final(self).walk_failures() == old(self).walk_failures(),
            final(self).unit_failures() == old(self).unit_failures(),
            final(self).progress() == old(self).progress(),
            unit is Some <==> old(self).handed_out() < old(self).submitted().len() && old(
                self,
            ).in_flight().len() < old(self).pool_size(),
            unit matches Some(path) ==> {
                &&& path@ == old(self).submitted()[old(self).handed_out() as int]
                &&& final(self).handed_out() == old(self).handed_out() + 1
                &&& final(self).in_flight() == old(self).in_flight().push(path@)
            },
            unit is None ==> {
                &&& final(self).handed_out() == old(self).handed_out()
                &&& final(self).in_flight() == old(self).in_flight()
            },
    {
        if self.next >= self.queue.len() {
            return None;
        }
        if !self.workers.try_acquire() {
            return None;
        }
        let path = self.queue[self.next].clone();
        self.out.send_out(path.clone());
        proof {
            broadcast use vstd::multiset::group_multiset_axioms;

            let submitted = self.queue.deep_view();
            let before = submitted.take(self.next as int);
            assert(submitted.take(self.next + 1) == before.push(path@));
            to_multiset_build(before, path@);
            assert(recorded_paths(self.records()).to_multiset().add(
                failed_paths(self.unit_failures()).to_multiset(),
            ).add(self.out@.to_multiset()) =~= submitted.take(self.next + 1).to_multiset());
        }
        self.next = self.next + 1;
        Some(path)
    }

    /// Merges what a worker reports for the unit on `path`, if `path` is with
    /// a worker: a fingerprinted image joins its bucket, a failure joins the
    /// failure list, progress advances by one unit either way, and the worker
    /// is free again. A report on a path that is not out is refused and
    /// changes nothing.
    pub fn merge(&mut self, path: String, outcome: Result<Fingerprint, (FailureKind, String)>) -> (merged:
        bool)
        requires
            old(self).wf(),
        ensures
            final(self).wf(),
            final(self).submitted() == old(self).submitted(),
            final(self).handed_out() == old(self).handed_out(),
            final(self).pool_size() == old(self).pool_size(),
            final(self).walk_failures() == old(self).walk_failures(),
            merged == old(self).in_flight().contains(path@),
            merged ==> {
                &&& final(self).in_flight().len() == old(self).in_flight().len() - 1
                &&& final(self).in_flight().to_multiset() == old(
                    self,
                ).in_flight().to_multiset().remove(path@)
                &&& final(self).records() == records_after(
                    old(self).records(),
                    path@,
                    outcome_view(outcome),
                )
                &&& final(self).unit_failures() == failures_after(
                    old(self).unit_failures(),
                    path@,
                    outcome_view(outcome),
                )
                &&& final(self).progress() == advanced(old(self).progress())
            },
            !merged ==> {
                &&& final(self).in_flight() == old(self).in_flight()
                &&& final(self).records() == old(self).records()
                &&& final(self).unit_failures() == old(self).unit_failures()
                &&& final(self).progress() == old(self).progress()
            },
    {
        let ghost out_before = self.out@;
        let ghost records_before = self.buckets@;
        let ghost failures_before = self.failures.deep_view();
        let ghost name = path@;
        if !self.out.retire(&path) {
            return false;
        }
        proof {
            out_before.to_multiset_ensures();
        }
        match outcome {
            Ok(fingerprint) => {
                self.buckets.record(fingerprint, path);
                proof {
                    broadcast use vstd::multiset::group_multiset_axioms;

                    assert(recorded_paths(self.buckets@) == recorded_paths(records_before).push(
                        name,
                    ));
                    to_multiset_build(recorded_paths(records_before), name);
                    assert(recorded_paths(self.buckets@).to_multiset().add(
                        failed_paths(self.unit_failures()).to_multiset(),
                    ).add(self.out@.to_multiset()) =~= recorded_paths(
                        records_before,
                    ).to_multiset().add(failed_paths(self.unit_failures()).to_multiset()).add(
                        out_before.to_multiset(),
                    ));
                }
            },
            Err(failure) => {
                let recorded = Failure::new(failure.0, path, failure.1);
                let ghost units_before = self.unit_failures();
                self.failures.push(recorded);
                proof {
                    broadcast use vstd::multiset::group_multiset_axioms;

                    assert(self.failures.deep_view() == failures_before.push(recorded@));
                    assert(self.unit_failures() == units_before.push(recorded@));
                    assert(self.walk_failures() == old(self).walk_failures());
                    assert(failed_paths(self.unit_failures()) == failed_paths(units_before).push(
                        name,
                    ));
                    to_multiset_build(failed_paths(units_before), name);
                    assert(recorded_paths(self.buckets@).to_multiset().add(
                        failed_paths(self.unit_failures()).to_multiset(),
                    ).add(self.out@.to_multiset()) =~= recorded_paths(
                        self.buckets@,
                    ).to_multiset().add(failed_paths(units_before).to_multiset()).add(
                        out_before.to_multiset(),
                    ));
                }
            },
        }
        self.workers.release();
        self.progress.advance();
        true
    }

    /// Fingerprints what was decoded for the unit on `path` and merges the
    /// outcome.
    pub fn complete(&mut self, path: String, decoded: &Result<DynamicImage, String>) -> (merged:
        bool)
        requires
            old(self).wf(),
        ensures
            final(self).wf(),
            final(self).submitted() == old(self).submitted(),
            final(self).handed_out() == old(self).handed_out(),
            final(self).pool_size() == old(self).pool_size(),
            final(self).walk_failures() == old(self).walk_failures(),
            merged == old(self).in_flight().contains(path@),
            merged ==> {
                &&& final(self).in_flight().len() == old(self).in_flight().len() - 1
                &&& final(self).in_flight().to_multiset() == old(
                    self,
                ).in_flight().to_multiset().remove(path@)
                &&& final(self).records() == records_after(
                    old(self).records(),
                    path@,
                    outcome_of(*decoded),
                )
                &&& final(self).unit_failures() == failures_after(
                    old(self).unit_failures(),
                    path@,
                    outcome_of(*decoded),
                )
                &&& final(self).progress() == advanced(old(self).progress())
            },
            !merged ==> {
                &&& final(self).in_flight() == old(self).in_flight()
                &&& final(self).records() == old(self).records()
                &&& final(self).unit_failures() == old(self).unit_failures()
                &&& final(self).progress() == old(self).progress()
            },
    {
        let outcome = compute_image_hash(decoded);
        self.merge(path, outcome)
    }

    /// Whether every submitted unit has completed.
    pub fn is_finished(&self) -> (done: bool)
        requires
            self.wf(),
        ensures
            done == self.finished(),
    {
        self.progress.is_complete()
    }

    /// A snapshot of the progress.
    pub fn progress_snapshot(&self) -> (snapshot: Progress)
        requires
            self.wf(),
        ensures
            snapshot.wf(),
            snapshot@ == self.progress(),
    {
        self.progress
    }

    /// Number of units that are with a worker.
    pub fn units_in_flight(&self) -> (n: usize)
        ensures
            n == self.in_flight().len(),
    {
        self.out.len()
    }

    /// The report of a finished scan.
    fn into_report(self) -> (report: ScanReport)
        requires
            self.wf(),
            self.finished(),
        ensures
            report.buckets.wf(),
            report.buckets@ == self.records(),
            report.progress.wf(),
            report.progress@ == self.progress(),
            report.failures.deep_view() == self.failures(),
    {
        assert(self.failures.deep_view() == self.walk_failures() + self.unit_failures());
        ScanReport { buckets: self.buckets, progress: self.progress, failures: self.failures }
    }

    /// Ends the scan. The results are handed out only when every submitted
    /// unit has completed; while work is outstanding there is no report. In
    /// the report the buckets and the failures of the units divide the
    /// submitted paths between them.
    pub fn finish(self) -> (report: Option<ScanReport>)
        requires
            self.wf(),
        ensures
            report is Some <==> self.finished(),
            report matches Some(r) ==> {
                &&& r.buckets.wf()
                &&& r.buckets@ == self.records()
                &&& r.progress.wf()
                &&& r.progress@ == self.progress()
                &&& r.failures.deep_view() == self.failures()
                &&& recorded_paths(r.buckets@).to_multiset().add(
                    failed_paths(self.unit_failures()).to_multiset(),
                ) == self.submitted().to_multiset()
            },
    {
        if self.is_finished() {
            proof {
                self.lemma_finished_scan_is_complete();
            }
            Some(self.into_report())
        } else {
            None
        }
    }
}

/// One unit of work with its outcome: a path and what decoding its file gave,
/// the image or the reason why there is none.
pub struct ScanUnit {
    pub path: String,
    pub decoded: Result<DynamicImage, String>,
}

/// The record that `unit` leaves in the buckets, if it was fingerprinted.
pub open spec fn record_of(unit: ScanUnit) -> Option<(u64, Seq<char>)> {
    match outcome_of(unit.decoded) {
        Ok(fingerprint) => Some((fingerprint.bits, unit.path@)),
        Err(_) => None,
    }
}

/// The failure that `unit` leaves in the failure list, if it failed.
pub open spec fn failure_of(unit: ScanUnit) -> Option<FailureView> {
    match outcome_of(unit.decoded) {
        Ok(_) => None,
        Err(failure) => Some(FailureView { kind: failure.0, path: unit.path@, reason: failure.1 }),
    }
}

/// The records that `units` leave in the buckets, in the order of the units.
pub open spec fn recorded(units: Seq<ScanUnit>) -> Seq<(u64, Seq<char>)> {
    units.filter_map(|unit: ScanUnit| record_of(unit))
}

/// The failures that `units` leave, in the order of the units.
pub open spec fn failed(units: Seq<ScanUnit>) -> Seq<FailureView> {
    units.filter_map(|unit: ScanUnit| failure_of(unit))
}

/// The paths of `units`, in their order.
pub open spec fn submitted_paths(units: Seq<ScanUnit>) -> Seq<Seq<char>> {
    units.map_values(|unit: ScanUnit| unit.path@)
}

/// Every submitted path ends in exactly one place: in a bucket if its image
/// was fingerprinted, in the failure list if it was not. So the buckets
/// taken together hold the submitted paths less those that failed.
pub proof fn lemma_every_unit_is_recorded_or_failed(units: Seq<ScanUnit>)
    ensures
        recorded_paths(recorded(units)).to_multiset().add(
            failed_paths(failed(units)).to_multiset(),
        ) == submitted_paths(units).to_multiset(),
        bucket_union(recorded(units), fingerprints(recorded(units))).add(
            failed_paths(failed(units)).to_multiset(),
        ) == submitted_paths(units).to_multiset(),
    decreases units.len(),
{
    broadcast use vstd::multiset::group_multiset_axioms;

    lemma_buckets_hold_recorded_paths(recorded(units));
    if units.len() == 0 {
        lemma_empty_multiset(recorded_paths(recorded(units)));
        lemma_empty_multiset(failed_paths(failed(units)));
        lemma_empty_multiset(submitted_paths(units));
        assert(recorded_paths(recorded(units)).to_multiset().add(
            failed_paths(failed(units)).to_multiset(),
        ) =~= submitted_paths(units).to_multiset());
    } else {
        let earlier = units.drop_last();
        let unit = units.last();
        lemma_every_unit_is_recorded_or_failed(earlier);
        assert(submitted_paths(units) == submitted_paths(earlier).push(unit.path@));
        to_multiset_build(submitted_paths(earlier), unit.path@);
        match outcome_of(unit.decoded) {
            Ok(fingerprint) => {
                let record = (fingerprint.bits, unit.path@);
                assert(recorded(units) == recorded(earlier) + seq![record]);
                assert(failed(units) == failed(earlier));
                assert(recorded_paths(recorded(units)) == recorded_paths(recorded(earlier)).push(
                    unit.path@,
                ));
                to_multiset_build(recorded_paths(recorded(earlier)), unit.path@);
            },
            Err(failure) => {
                let view = FailureView { kind: failure.0, path: unit.path@, reason: failure.1 };
                assert(failed(units) == failed(earlier) + seq![view]);
                assert(recorded(units) == recorded(earlier));
                assert(failed_paths(failed(units)) == failed_paths(failed(earlier)).push(
                    unit.path@,
                ));
                to_multiset_build(failed_paths(failed(earlier)), unit.path@);
            },
        }
        assert(recorded_paths(recorded(units)).to_multiset().add(
            failed_paths(failed(units)).to_multiset(),
        ) =~= submitted_paths(units).to_multiset());
    }
}

/// Scans `units` one after the other: every unit that can be fingerprinted is
/// recorded in the bucket of its fingerprint, every other unit in the failure
/// list, and progress ends complete.
pub fn find_duplicates(units: &Vec<ScanUnit>) -> (report: ScanReport)
    ensures
        report.buckets.wf(),
        report.buckets@ == recorded(units@),
        report.failures.deep_view() == failed(units@),
        report.progress.wf(),
        report.progress@ == (ProgressView {
            completed: units.len() as nat,
            total: units.len() as nat,
        }),
{
    let mut paths: Vec<String> = Vec::new();
    let mut i: usize = 0;
    while i < units.len()
        invariant
            i <= units.len(),
            paths.len() == i,
            forall|j: int| 0 <= j < i ==> paths[j]@ == units[j].path@,
        decreases units.len() - i,
    {
        paths.push(units[i].path.clone());
        i = i + 1;
    }
    let mut scan = Scan::new(paths, 1);
    let mut done: usize = 0;
    while done < units.len()
        invariant
            scan.wf(),
            done <= units.len(),
            scan.submitted().len() == units.len(),
            forall|j: int| 0 <= j < units.len() ==> scan.submitted()[j] == units[j].path@,
            scan.pool_size() == 1,
            scan.in_flight().len() == 0,
            scan.handed_out() == done,
            scan.records() == recorded(units@.take(done as int)),
            scan.walk_failures() == Seq::<FailureView>::empty(),
            scan.unit_failures() == failed(units@.take(done as int)),
            scan.progress() == (ProgressView { completed: done as nat, total: units.len() as nat }),
        decreases units.len() - done,
    {
        proof {
            assert(units@.take(done + 1).drop_last() == units@.take(done as int));
            assert(units@.take(done + 1).last() == units[done as int]);
        }
        match scan.next_unit() {
            Some(path) => {
                assert(scan.in_flight().last() == path@);
                let merged = scan.complete(path, &units[done].decoded);
                assert(merged);
            },
            None => {},
        }
        done = done + 1;
    }
    assert(units@.take(units.len() as int) == units@);
    scan.into_report()
}

} // verus!
