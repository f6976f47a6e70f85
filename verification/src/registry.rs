//! The registry of workspaces: which entries of the staging directory are
//! workspaces of a user, in which order they are listed, and which of them
//! belong to a directory.

use vstd::prelude::*;
use crate::error::Error;
use crate::host::current_uid;
use crate::job::{job_views, reference_of, Job, JobView, Links, LinksView};
use crate::layout::PREFIX;
use crate::path::{valid_segment, AbsPath};
use crate::seqs::{lemma_filter_none, lemma_filter_step};
use crate::text::has_prefix;

verus! {

/// How many jobs a listing shows where no number is asked for.
pub const TOP_N: usize = 10;

/// One entry of the staging directory, as it was read.
#[derive(Clone, Debug, PartialEq, Eq)]
pub struct Entry {
    /// The name of the entry.
    pub name: String,
    /// The user who owns it; `None` where its metadata could not be read.
    pub owner: Option<u32>,
    /// When it was created, in seconds.
    pub created: i64,
}

/// An entry as a plain value.
pub struct EntryView {
    pub name: Seq<char>,
    pub owner: Option<u32>,
    pub created: i64,
}

impl View for Entry {
    type V = EntryView;

    open spec fn view(&self) -> EntryView {
        EntryView { name: self.name@, owner: self.owner, created: self.created }
    }
}

/// The entries as plain values.
pub open spec fn entry_views(entries: Seq<Entry>) -> Seq<EntryView> {
    entries.map_values(|e: Entry| e@)
}

/// An entry is a workspace of the user `uid`: its name begins with the
/// prefix and is a path segment, and `uid` owns it.
pub open spec fn is_workspace_of(e: EntryView, uid: u32) -> bool {
    &&& PREFIX@.is_prefix_of(e.name)
    &&& valid_segment(e.name)
    &&& e.owner == Some(uid)
}

/// The test that keeps the workspaces of `uid`.
pub open spec fn workspaces_of(uid: u32) -> spec_fn(EntryView) -> bool {
    |e: EntryView| is_workspace_of(e, uid)
}

/// The job that an entry of the directory `staging` stands for.
pub open spec fn job_of(staging: Seq<Seq<char>>, e: EntryView) -> JobView {
    JobView { timestamp: e.created, dir: staging.push(e.name) }
}

/// The jobs of the user `uid` among the entries of `staging`, in the order
/// of the entries.
pub open spec fn owned_jobs(staging: Seq<Seq<char>>, entries: Seq<EntryView>, uid: u32) -> Seq<
    JobView,
> {
    entries.filter(workspaces_of(uid)).map_values(|e: EntryView| job_of(staging, e))
}

/// `job` put into a sequence that is ordered newest first: behind every job
/// that is not older, before every job that is older.
pub open spec fn placed(ordered: Seq<JobView>, job: JobView) -> Seq<JobView>
    decreases ordered.len(),
{
    if ordered.len() == 0 {
        seq![job]
    } else if ordered.last().timestamp >= job.timestamp {
        ordered.push(job)
    } else {
        placed(ordered.drop_last(), job).push(ordered.last())
    }
}

/// The jobs ordered by their time of creation, newest first; jobs of the
/// same time keep the order in which they came.
pub open spec fn sorted_by_age(jobs: Seq<JobView>) -> Seq<JobView>
    decreases jobs.len(),
{
    if jobs.len() == 0 {
        Seq::empty()
    } else {
        placed(sorted_by_age(jobs.drop_last()), jobs.last())
    }
}

/// No job stands before a newer one.
pub open spec fn is_newest_first(jobs: Seq<JobView>) -> bool {
    forall|i: int, j: int| 0 <= i <= j < jobs.len() ==> jobs[i].timestamp >= jobs[j].timestamp
}

/// The first `n` jobs in the order newest first, or all of them where there
/// are fewer.
pub open spec fn newest(jobs: Seq<JobView>, n: int) -> Seq<JobView> {
    let ordered = sorted_by_age(jobs);
    if n < ordered.len() {
        ordered.take(n)
    } else {
        ordered
    }
}

/// The position behind the last job of `ordered` that is not older than
/// `job`.
pub open spec fn place_of(ordered: Seq<JobView>, job: JobView) -> int
    decreases ordered.len(),
{
    if ordered.len() == 0 || ordered.last().timestamp >= job.timestamp {
        ordered.len() as int
    } else {
        place_of(ordered.drop_last(), job)
    }
}

/// `place_of` is the position that `lemma_placed_at` asks for.
pub proof fn lemma_place_of(ordered: Seq<JobView>, job: JobView)
    ensures
        0 <= place_of(ordered, job) <= ordered.len(),
        forall|k: int|
            place_of(ordered, job) <= k < ordered.len() ==> ordered[k].timestamp < job.timestamp,
        place_of(ordered, job) > 0 ==> ordered[place_of(ordered, job) - 1].timestamp
            >= job.timestamp,
    decreases ordered.len(),
{
    if ordered.len() > 0 && ordered.last().timestamp < job.timestamp {
        let shorter = ordered.drop_last();
        lemma_place_of(shorter, job);
        assert forall|k: int| place_of(ordered, job) <= k < ordered.len() implies ordered[k].timestamp
            < job.timestamp by {
            if k < shorter.len() {
                assert(ordered[k] == shorter[k]);
            }
        }
        if place_of(ordered, job) > 0 {
            assert(ordered[place_of(ordered, job) - 1] == shorter[place_of(shorter, job) - 1]);
        }
    }
}

/// Where `placed` puts a job: at the position behind which every job is
/// older and before which the next job is not.
pub proof fn lemma_placed_at(ordered: Seq<JobView>, job: JobView, at: int)
    requires
        0 <= at <= ordered.len(),
        forall|k: int| at <= k < ordered.len() ==> ordered[k].timestamp < job.timestamp,
        at > 0 ==> ordered[at - 1].timestamp >= job.timestamp,
    ensures
        placed(ordered, job) == ordered.insert(at, job),
    decreases ordered.len(),
{
    if ordered.len() == 0 {
        assert(ordered.insert(at, job) =~= seq![job]);
    } else if at == ordered.len() {
        assert(ordered.insert(at, job) =~= ordered.push(job));
    } else {
        lemma_placed_at(ordered.drop_last(), job, at);
        assert(ordered.insert(at, job) =~= ordered.drop_last().insert(at, job).push(
            ordered.last(),
        ));
    }
}

/// Placing a job keeps the order and adds exactly that job.
pub proof fn lemma_placed(ordered: Seq<JobView>, job: JobView)
    requires
        is_newest_first(ordered),
    ensures
        is_newest_first(placed(ordered, job)),
        placed(ordered, job).len() == ordered.len() + 1,
        placed(ordered, job).to_multiset() == ordered.to_multiset().insert(job),
    decreases ordered.len(),
{
    broadcast use vstd::seq_lib::to_multiset_insert;

    let at = place_of(ordered, job);
    lemma_place_of(ordered, job);
    lemma_placed_at(ordered, job, at);
    let out = ordered.insert(at, job);
    assert forall|i: int, j: int| 0 <= i <= j < out.len() implies out[i].timestamp
        >= out[j].timestamp by {
        if i < at && j > at {
            assert(out[i] == ordered[i] && out[j] == ordered[j - 1]);
        } else if i < at && j == at {
            assert(ordered[i].timestamp >= ordered[at - 1].timestamp);
        } else if i == at && j > at {
            assert(out[j] == ordered[j - 1]);
        } else if i > at {
            assert(out[i] == ordered[i - 1] && out[j] == ordered[j - 1]);
        }
    }
}

/// The ordered jobs are the given jobs, each as often as it was given, and
/// no job stands before a newer one.
pub proof fn lemma_sorted_by_age(jobs: Seq<JobView>)
    ensures
        is_newest_first(sorted_by_age(jobs)),
        sorted_by_age(jobs).len() == jobs.len(),
        sorted_by_age(jobs).to_multiset() == jobs.to_multiset(),
    decreases jobs.len(),
{
    broadcast use vstd::seq_lib::to_multiset_build;

    if jobs.len() == 0 {
        assert(jobs =~= Seq::<JobView>::empty());
    } else {
        lemma_sorted_by_age(jobs.drop_last());
        lemma_placed(sorted_by_age(jobs.drop_last()), jobs.last());
        assert(jobs =~= jobs.drop_last().push(jobs.last()));
    }
}

/// A job together with what resolving its links gave.
#[derive(Clone, Debug, PartialEq, Eq)]
pub struct Sighting {
    pub job: Job,
    pub links: Links,
}

/// A sighting as a plain value.
pub struct SightingView {
    pub job: JobView,
    pub links: LinksView,
}

impl View for Sighting {
    type V = SightingView;

    open spec fn view(&self) -> SightingView {
        SightingView { job: self.job@, links: self.links@ }
    }
}

/// The sightings as plain values.
pub open spec fn sighting_views(sightings: Seq<Sighting>) -> Seq<SightingView> {
    sightings.map_values(|s: Sighting| s@)
}

/// The test for the jobs whose reference directory is exactly `cwd`.
pub open spec fn seen_from(cwd: Seq<Seq<char>>) -> spec_fn(SightingView) -> bool {
    |s: SightingView| reference_of(s.links) == Ok::<Seq<Seq<char>>, Error>(cwd)
}

/// The jobs whose reference directory is exactly `cwd`, newest first.
pub open spec fn jobs_from(cwd: Seq<Seq<char>>, sightings: Seq<SightingView>) -> Seq<JobView> {
    sorted_by_age(sightings.filter(seen_from(cwd)).map_values(|s: SightingView| s.job))
}

impl Job {
    /// The workspaces of the user `uid` among the entries of the staging
    /// directory: those whose name begins with the prefix and whose owner is
    /// `uid`, each with its time of creation, in the order of the entries.
    /// An entry whose metadata could not be read is left out.
    pub fn owned(staging: &AbsPath, entries: &Vec<Entry>, uid: u32) -> (jobs: Vec<Job>)
        ensures
            job_views(jobs@) == owned_jobs(staging@, entry_views(entries@), uid),
    {
        let ghost all = entry_views(entries@);
        let ghost keep = workspaces_of(uid);
        let mut jobs: Vec<Job> = Vec::new();
        let mut i: usize = 0;
        proof {
            lemma_filter_none(all.take(0), keep);
        }
        while i < entries.len()
            invariant
                i <= entries.len(),
                all == entry_views(entries@),
                keep == workspaces_of(uid),
                job_views(jobs@) =~= owned_jobs(staging@, all.take(i as int), uid),
            decreases entries.len() - i,
        {
            let entry = &entries[i];
            proof {
                lemma_filter_step(all, keep, i as int);
                assert(all[i as int] == entry@);
            }
            let mine = match entry.owner {
                Some(owner) => owner == uid,
                None => false,
            };
            if mine && has_prefix(entry.name.as_str(), PREFIX) {
                match staging.child(entry.name.as_str()) {
                    Some(dir) => {
                        let ghost before = jobs@;
                        jobs.push(Job { timestamp: entry.created, dir });
                        assert(job_views(jobs@) =~= job_views(before).push(
                            job_of(staging@, entry@),
                        ));
                    },
                    None => {},
                }
            }
            i += 1;
        }
        assert(all.take(entries.len() as int) =~= all);
        jobs
    }

    /// The workspaces of the calling user among the entries of the staging
    /// directory. Workspaces of other users are never among them.
    pub fn list(staging: &AbsPath, entries: &Vec<Entry>) -> (jobs: Vec<Job>)
        ensures
            exists|uid: u32| job_views(jobs@) == owned_jobs(staging@, entry_views(entries@), uid),
    {
        let uid = current_uid();
        Job::owned(staging, entries, uid)
    }

    /// The jobs ordered by their time of creation, newest first. Jobs of the
    /// same time keep their order.
    pub fn newest_first(jobs: Vec<Job>) -> (ordered: Vec<Job>)
        ensures
            job_views(ordered@) == sorted_by_age(job_views(jobs@)),
            is_newest_first(job_views(ordered@)),
            job_views(ordered@).to_multiset() == job_views(jobs@).to_multiset(),
    {
        let ghost all = job_views(jobs@);
        let mut rest = jobs;
        let mut ordered: Vec<Job> = Vec::new();
        let ghost mut done: int = 0;
        while rest.len() > 0
            invariant
                0 <= done <= all.len(),
                job_views(rest@) =~= all.skip(done),
                job_views(ordered@) == sorted_by_age(all.take(done)),
            decreases rest.len(),
        {
            let ghost before = rest@;
            proof {
                assert(job_views(before).len() == before.len());
                assert(job_views(before)[0] == before[0]@);
                assert(all.skip(done)[0] == all[done]);
            }
            let job = rest.remove(0);
            let mut at: usize = ordered.len();
            proof {
                assert(job@ == all[done]);
                assert forall|k: int| 0 <= k < rest@.len() implies job_views(rest@)[k]
                    == all.skip(done + 1)[k] by {
                    assert(rest@[k] == before[k + 1]);
                    assert(job_views(before)[k + 1] == before[k + 1]@);
                    assert(all.skip(done)[k + 1] == all[done + k + 1]);
                }
                assert(job_views(rest@) =~= all.skip(done + 1));
                assert(all.take(done + 1).drop_last() =~= all.take(done));
                lemma_sorted_by_age(all.take(done));
            }
            while at > 0 && ordered[at - 1].timestamp < job.timestamp
                invariant
                    at <= ordered.len(),
                    forall|k: int|
                        at <= k < ordered.len() ==> job_views(ordered@)[k].timestamp
                            < job.timestamp,
                decreases at,
            {
                at -= 1;
            }
            proof {
                if at > 0 {
                    assert(job_views(ordered@)[at - 1].timestamp >= job.timestamp);
                }
                lemma_placed_at(job_views(ordered@), job@, at as int);
            }
            let ghost sofar = ordered@;
            ordered.insert(at, job);
            assert(job_views(ordered@) =~= job_views(sofar).insert(at as int, job@));
            proof {
                done = done + 1;
            }
        }
        proof {
            assert(all.take(done) =~= all);
            lemma_sorted_by_age(all);
        }
        ordered
    }

    /// The `n` newest jobs, newest first; all of them where there are fewer.
    pub fn top(jobs: Vec<Job>, n: usize) -> (ordered: Vec<Job>)
        ensures
            job_views(ordered@) == newest(job_views(jobs@), n as int),
    {
        let mut ordered = Job::newest_first(jobs);
        let ghost full = ordered@;
        if n < ordered.len() {
            ordered.truncate(n);
            assert(job_views(ordered@) =~= job_views(full).take(n as int));
        }
        ordered
    }

    /// The jobs whose reference directory is exactly `cwd`, newest first. A
    /// job under a directory above or below `cwd` is not among them, nor one
    /// whose reference directory did not resolve.
    pub fn matching(cwd: &AbsPath, sightings: &Vec<Sighting>) -> (jobs: Vec<Job>)
        ensures
            job_views(jobs@) == jobs_from(cwd@, sighting_views(sightings@)),
    {
        let ghost all = sighting_views(sightings@);
        let ghost keep = seen_from(cwd@);
        let mut found: Vec<Job> = Vec::new();
        let mut i: usize = 0;
        proof {
            lemma_filter_none(all.take(0), keep);
        }
        while i < sightings.len()
            invariant
                i <= sightings.len(),
                all == sighting_views(sightings@),
                keep == seen_from(cwd@),
                job_views(found@) =~= all.take(i as int).filter(keep).map_values(
                    |s: SightingView| s.job,
                ),
            decreases sightings.len() - i,
        {
            let sighting = &sightings[i];
            proof {
                lemma_filter_step(all, keep, i as int);
                assert(all[i as int] == sighting@);
            }
            let here = match sighting.job.ref_dir(&sighting.links) {
                Ok(dir) => dir.same(cwd),
                Err(_) => false,
            };
            if here {
                let ghost before = found@;
                found.push(sighting.job.clone());
                assert(job_views(found@) =~= job_views(before).push(sighting@.job));
            }
            i += 1;
        }
        assert(all.take(sightings.len() as int) =~= all);
        Job::newest_first(found)
    }
}

} // verus!
