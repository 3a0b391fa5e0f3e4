//! The job table of the download manager: which jobs exist, where each stands, and
//! what each command does to them. Running the downloads is the caller's part.
use vstd::prelude::*;

use crate::book::EpubVersion;
use crate::error::{Error, ErrorKind};
use crate::model::{Progress, Selection, Stage};
use crate::protocol::{is_finished, Command, CommandOutcome, Event, JobId, JobSnapshot, JobStatus};

verus! {

/// One download job.
#[derive(Debug)]
pub struct Job {
    pub id: JobId,
    pub url: String,
    pub selection: Selection,
    pub version: EpubVersion,
    pub status: JobStatus,
    pub progress: Progress,
    pub result_path: Option<String>,
    pub error: Option<String>,
}

/// A job that a `StartJob` command moved to `Running`: what the caller needs to run it.
#[derive(Debug)]
pub struct JobLaunch {
    pub job_id: JobId,
    pub url: String,
    pub selection: Selection,
    pub version: EpubVersion,
}

/// The jobs of a download manager and the next id to hand out.
pub struct JobTable {
    jobs: Vec<Job>,
    next_id: JobId,
}

/// Whether some job in `jobs` has id `id`.
pub open spec fn has_job(jobs: Seq<Job>, id: JobId) -> bool {
    exists|i: int| 0 <= i < jobs.len() && jobs[i].id == id
}

/// The position of the job with id `id` (meaningful when there is one).
pub open spec fn job_index(jobs: Seq<Job>, id: JobId) -> int {
    choose|i: int| 0 <= i < jobs.len() && jobs[i].id == id
}

/// A progress whose counters never run past their totals.
pub open spec fn progress_wf(p: Progress) -> bool {
    p.chapters_done <= p.chapters_total && p.images_done <= p.images_total
}

/// The overall percentage of a download: fixed values for the short stages, and
/// 10..40 for chapters and 40..100 for images in proportion to the work done.
pub open spec fn percent_of(p: Progress) -> nat {
    match p.stage_view() {
        Stage::FetchBook => 2,
        Stage::ParseToc => 5,
        Stage::DownloadChapters => if p.chapters_total == 0 {
            10
        } else {
            10 + (30 * (p.chapters_done as nat)) / (p.chapters_total as nat)
        },
        Stage::DownloadImages => if p.images_total == 0 {
            40
        } else {
            40 + (60 * (p.images_done as nat)) / (p.images_total as nat)
        },
        Stage::Pack => 100,
    }
}

/// The percentage of a well-formed progress never exceeds 100.
pub proof fn law_percent_at_most_100(p: Progress)
    requires
        progress_wf(p),
    ensures
        percent_of(p) <= 100,
{
    if p.chapters_total > 0 {
        let t = p.chapters_total as nat;
        assert((30 * (p.chapters_done as nat)) / t <= 30) by (nonlinear_arith)
            requires
                p.chapters_done <= t,
                t > 0,
        ;
    }
    if p.images_total > 0 {
        let t = p.images_total as nat;
        assert((60 * (p.images_done as nat)) / t <= 60) by (nonlinear_arith)
            requires
                p.images_done <= t,
                t > 0,
        ;
    }
}

/// The overall percentage of a download (see [`percent_of`]).
pub fn calc_percent(progress: &Progress) -> (pct: u32)
    requires
        progress_wf(*progress),
    ensures
        pct as nat == percent_of(*progress),
        pct <= 100,
{
    proof {
        law_percent_at_most_100(*progress);
    }
    let chapters_total = progress.chapters_total;
    let chapters_done = progress.chapters_done;
    let images_total = progress.images_total;
    let images_done = progress.images_done;
    match progress.get_stage() {
        Stage::FetchBook => 2,
        Stage::ParseToc => 5,
        Stage::DownloadChapters => {
            if chapters_total == 0 {
                10
            } else {
                let q = (30 * chapters_done as u128) / (chapters_total as u128);
                (10 + q) as u32
            }
        },
        Stage::DownloadImages => {
            if images_total == 0 {
                40
            } else {
                let q = (60 * images_done as u128) / (images_total as u128);
                (40 + q) as u32
            }
        },
        Stage::Pack => 100,
    }
}

/// The view of an optional string.
pub open spec fn opt_str(o: Option<String>) -> Option<Seq<char>> {
    match o {
        Some(s) => Some(s@),
        None => None,
    }
}

/// A copy of an optional string.
fn copy_opt(o: &Option<String>) -> (r: Option<String>)
    ensures
        r == *o,
{
    match o {
        Some(s) => Some(s.clone()),
        None => None,
    }
}

/// `after` is `before` with the progress of job `k` replaced by `p` and nothing else
/// changed.
pub open spec fn progress_replaced(before: Seq<Job>, after: Seq<Job>, k: int, p: Progress) -> bool {
    &&& after.len() == before.len()
    &&& forall|i: int| 0 <= i < before.len() && i != k ==> after[i] == before[i]
    &&& after[k].id == before[k].id && after[k].url == before[k].url
    &&& after[k].selection == before[k].selection && after[k].version == before[k].version
    &&& after[k].status == before[k].status && after[k].result_path == before[k].result_path
    &&& after[k].error == before[k].error
    &&& after[k].progress == p
}

/// Whether `snap` reports each of `jobs`, in order.
pub open spec fn snapshot_of(jobs: Seq<Job>, snap: Seq<JobSnapshot>) -> bool {
    &&& snap.len() == jobs.len()
    &&& forall|i: int|
        0 <= i < snap.len() ==> {
            let s = #[trigger] snap[i];
            let j = jobs[i];
            &&& s.job_id == j.id && s.url == j.url && s.status == j.status
            &&& s.stage == j.progress.stage_view()
            &&& s.percent as nat == percent_of(j.progress)
            &&& s.chapters_done == j.progress.chapters_done
            &&& s.chapters_total == j.progress.chapters_total
            &&& s.images_done == j.progress.images_done
            &&& s.images_total == j.progress.images_total
            &&& s.result_path == j.result_path && s.error == j.error
        }
}

/// `after` is `before` with the jobs for which `hit` holds asked to stop, nothing else
/// changed.
pub open spec fn cancel_marked(before: Seq<Job>, after: Seq<Job>, hit: spec_fn(Job) -> bool) -> bool {
    &&& after.len() == before.len()
    &&& forall|i: int|
        0 <= i < before.len() ==> {
            let j = #[trigger] after[i];
            let o = before[i];
            &&& j.id == o.id && j.url == o.url && j.status == o.status
            &&& j.selection == o.selection && j.version == o.version
            &&& j.result_path == o.result_path && j.error == o.error
            &&& j.progress.cancel == (o.progress.cancel || hit(o))
            &&& j.progress.chapters_done == o.progress.chapters_done
            &&& j.progress.chapters_total == o.progress.chapters_total
            &&& j.progress.images_done == o.progress.images_done
            &&& j.progress.images_total == o.progress.images_total
            &&& j.progress.stage == o.progress.stage
        }
}

/// `after` is `before` without the job `id` if that job has ended, else `before`.
pub open spec fn removed_if_finished(before: Seq<Job>, after: Seq<Job>, id: JobId) -> bool {
    if has_job(before, id) && is_finished(before[job_index(before, id)].status) {
        after == before.remove(job_index(before, id))
    } else {
        after == before
    }
}

/// A count of work done after one more piece, never past the total.
pub open spec fn count_up(done: usize, total: usize) -> usize {
    if done < total {
        (done + 1) as usize
    } else {
        done
    }
}

/// The smaller of two counts.
pub open spec fn min_count(a: usize, b: usize) -> usize {
    if a < b {
        a
    } else {
        b
    }
}

/// One move of a job's status: none, `Queued` to `Running`, or `Running` to an end.
pub open spec fn status_step(a: JobStatus, b: JobStatus) -> bool {
    ||| a == b
    ||| a == JobStatus::Queued && b == JobStatus::Running
    ||| a == JobStatus::Running && is_finished(b)
}

/// Where a job's status can get to by any number of moves: forward from `Queued` to
/// `Running` to an end, and an ended job's status stays as it is.
pub open spec fn status_reaches(a: JobStatus, b: JobStatus) -> bool {
    status_step(a, b) || (a == JobStatus::Queued && is_finished(b))
}

/// Ids never go back, and every job of `after` is a job of `before` or has an id that
/// `before` had not handed out yet.
pub open spec fn ids_carried(before: JobTable, after: JobTable) -> bool {
    &&& before.next_id() <= after.next_id()
    &&& forall|j: int|
        0 <= j < after.jobs().len() ==> has_job(before.jobs(), #[trigger] after.jobs()[j].id)
            || after.jobs()[j].id >= before.next_id()
}

/// `after` follows `before` by one operation: a job in both moved its status at most
/// one step.
pub open spec fn table_step(before: JobTable, after: JobTable) -> bool {
    &&& ids_carried(before, after)
    &&& forall|i: int, j: int|
        #![trigger before.jobs()[i], after.jobs()[j]]
        0 <= i < before.jobs().len() && 0 <= j < after.jobs().len() && before.jobs()[i].id
            == after.jobs()[j].id ==> status_step(before.jobs()[i].status, after.jobs()[j].status)
}

/// `after` follows `before` by any number of operations: a job in both moved its status
/// only forward.
pub open spec fn table_reaches(before: JobTable, after: JobTable) -> bool {
    &&& ids_carried(before, after)
    &&& forall|i: int, j: int|
        #![trigger before.jobs()[i], after.jobs()[j]]
        0 <= i < before.jobs().len() && 0 <= j < after.jobs().len() && before.jobs()[i].id
            == after.jobs()[j].id ==> status_reaches(before.jobs()[i].status, after.jobs()[j].status)
}

/// `after` is `before` with one job added at the end under `id`, the id that was next.
pub open spec fn created(before: JobTable, after: JobTable, id: JobId) -> bool {
    &&& id == before.next_id()
    &&& after.next_id() == before.next_id() + 1
    &&& after.jobs().len() == before.jobs().len() + 1
    &&& forall|i: int| 0 <= i < before.jobs().len() ==> after.jobs()[i] == before.jobs()[i]
    &&& after.jobs().last().id == id
}

/// An operation that keeps every job in its place under its id, each status moving at
/// most one step, is one step of the table.
proof fn lemma_pointwise_step(b: JobTable, a: JobTable)
    requires
        b.wf(),
        a.wf(),
        b.next_id() <= a.next_id(),
        a.jobs().len() == b.jobs().len(),
        forall|i: int|
            0 <= i < b.jobs().len() ==> (#[trigger] a.jobs()[i]).id == b.jobs()[i].id
                && status_step(b.jobs()[i].status, a.jobs()[i].status),
    ensures
        table_step(b, a),
{
    assert forall|j: int| 0 <= j < a.jobs().len() implies has_job(
        b.jobs(),
        #[trigger] a.jobs()[j].id,
    ) || a.jobs()[j].id >= b.next_id() by {
        assert(b.jobs()[j].id == a.jobs()[j].id);
    }
    assert forall|i: int, j: int|
        #![trigger b.jobs()[i], a.jobs()[j]]
        0 <= i < b.jobs().len() && 0 <= j < a.jobs().len() && b.jobs()[i].id == a.jobs()[j].id implies status_step(
        b.jobs()[i].status,
        a.jobs()[j].status,
    ) by {
        assert(a.jobs()[i].id == b.jobs()[i].id);
        if i < j {
            assert(a.jobs()[i].id != a.jobs()[j].id);
        } else if j < i {
            assert(a.jobs()[j].id != a.jobs()[i].id);
        }
    }
}

/// Taking out one job is one step of the table.
proof fn lemma_remove_step(b: JobTable, a: JobTable, k: int)
    requires
        b.wf(),
        b.next_id() == a.next_id(),
        0 <= k < b.jobs().len(),
        a.jobs() == b.jobs().remove(k),
    ensures
        table_step(b, a),
{
    assert forall|j: int| 0 <= j < a.jobs().len() implies has_job(
        b.jobs(),
        #[trigger] a.jobs()[j].id,
    ) || a.jobs()[j].id >= b.next_id() by {
        if j < k {
            assert(b.jobs()[j] == a.jobs()[j]);
        } else {
            assert(b.jobs()[j + 1] == a.jobs()[j]);
        }
    }
    assert forall|i: int, j: int|
        #![trigger b.jobs()[i], a.jobs()[j]]
        0 <= i < b.jobs().len() && 0 <= j < a.jobs().len() && b.jobs()[i].id == a.jobs()[j].id implies status_step(
        b.jobs()[i].status,
        a.jobs()[j].status,
    ) by {
        let m = if j < k {
            j
        } else {
            j + 1
        };
        assert(b.jobs()[m] == a.jobs()[j]);
        if i < m {
            assert(b.jobs()[i].id != b.jobs()[m].id);
        } else if m < i {
            assert(b.jobs()[m].id != b.jobs()[i].id);
        }
    }
}

/// Adding a job under the next id is one step of the table.
proof fn lemma_created_step(b: JobTable, a: JobTable, id: JobId)
    requires
        b.wf(),
        created(b, a, id),
    ensures
        table_step(b, a),
{
    let n = b.jobs().len() as int;
    assert forall|j: int| 0 <= j < a.jobs().len() implies has_job(
        b.jobs(),
        #[trigger] a.jobs()[j].id,
    ) || a.jobs()[j].id >= b.next_id() by {
        if j < n {
            assert(b.jobs()[j] == a.jobs()[j]);
        }
    }
    assert forall|i: int, j: int|
        #![trigger b.jobs()[i], a.jobs()[j]]
        0 <= i < b.jobs().len() && 0 <= j < a.jobs().len() && b.jobs()[i].id == a.jobs()[j].id implies status_step(
        b.jobs()[i].status,
        a.jobs()[j].status,
    ) by {
        assert(b.jobs()[i].id < b.next_id());
        assert(j < n);
        assert(b.jobs()[j] == a.jobs()[j]);
        if i < j {
            assert(b.jobs()[i].id != b.jobs()[j].id);
        } else if j < i {
            assert(b.jobs()[j].id != b.jobs()[i].id);
        }
    }
}

/// A table reaches itself.
proof fn lemma_reaches_itself(t: JobTable)
    requires
        t.wf(),
    ensures
        table_reaches(t, t),
{
    assert forall|j: int| 0 <= j < t.jobs().len() implies has_job(
        t.jobs(),
        #[trigger] t.jobs()[j].id,
    ) || t.jobs()[j].id >= t.next_id() by {}
    assert forall|i: int, j: int|
        #![trigger t.jobs()[i], t.jobs()[j]]
        0 <= i < t.jobs().len() && 0 <= j < t.jobs().len() && t.jobs()[i].id == t.jobs()[j].id implies status_reaches(
        t.jobs()[i].status,
        t.jobs()[j].status,
    ) by {
        if i < j {
            assert(t.jobs()[i].id != t.jobs()[j].id);
        } else if j < i {
            assert(t.jobs()[j].id != t.jobs()[i].id);
        }
    }
}

/// Reaching a table and then taking one step reaches the next table.
proof fn lemma_reaches_then_step(t0: JobTable, t1: JobTable, t2: JobTable)
    requires
        t0.wf(),
        table_reaches(t0, t1),
        table_step(t1, t2),
    ensures
        table_reaches(t0, t2),
{
    assert forall|j: int| 0 <= j < t2.jobs().len() implies has_job(
        t0.jobs(),
        #[trigger] t2.jobs()[j].id,
    ) || t2.jobs()[j].id >= t0.next_id() by {
        let x = t2.jobs()[j].id;
        if has_job(t1.jobs(), x) {
            let m = choose|m: int| 0 <= m < t1.jobs().len() && t1.jobs()[m].id == x;
            assert(has_job(t0.jobs(), t1.jobs()[m].id) || t1.jobs()[m].id >= t0.next_id());
        }
    }
    assert forall|i: int, j: int|
        #![trigger t0.jobs()[i], t2.jobs()[j]]
        0 <= i < t0.jobs().len() && 0 <= j < t2.jobs().len() && t0.jobs()[i].id == t2.jobs()[j].id implies status_reaches(
        t0.jobs()[i].status,
        t2.jobs()[j].status,
    ) by {
        let x = t0.jobs()[i].id;
        assert(x < t0.next_id());
        assert(has_job(t1.jobs(), t2.jobs()[j].id) || t2.jobs()[j].id >= t1.next_id());
        let m = choose|m: int| 0 <= m < t1.jobs().len() && t1.jobs()[m].id == x;
        assert(status_reaches(t0.jobs()[i].status, t1.jobs()[m].status));
        assert(status_step(t1.jobs()[m].status, t2.jobs()[j].status));
    }
}

/// Over any run of operations on a table, a job's status only moves forward: from
/// `Queued` to `Running` and from `Running` to an end, and an ended job's status never
/// changes again.
pub proof fn law_status_moves_forward(ts: Seq<JobTable>)
    requires
        ts.len() > 0,
        forall|k: int| 0 <= k < ts.len() ==> (#[trigger] ts[k]).wf(),
        forall|k: int| 0 <= k < ts.len() - 1 ==> table_step(#[trigger] ts[k], ts[k + 1]),
    ensures
        table_reaches(ts[0], ts.last()),
    decreases ts.len(),
{
    if ts.len() == 1 {
        lemma_reaches_itself(ts[0]);
    } else {
        let init = ts.drop_last();
        assert forall|k: int| 0 <= k < init.len() - 1 implies table_step(
            #[trigger] init[k],
            init[k + 1],
        ) by {
            assert(init[k] == ts[k] && init[k + 1] == ts[k + 1]);
        }
        law_status_moves_forward(init);
        assert(ts[ts.len() - 2] == init.last());
        lemma_reaches_then_step(ts[0], init.last(), ts.last());
    }
}

/// Creating jobs one after another in a new table hands out the ids 0, 1, 2, … in
/// order, and job `k` of the table is the one created `k`-th.
pub proof fn law_ids_in_creation_order(ts: Seq<JobTable>, ids: Seq<JobId>)
    requires
        ts.len() == ids.len() + 1,
        ts[0].jobs().len() == 0,
        ts[0].next_id() == 0,
        forall|k: int| 0 <= k < ids.len() ==> created(#[trigger] ts[k], ts[k + 1], ids[k]),
    ensures
        forall|k: int| 0 <= k < ids.len() ==> #[trigger] ids[k] == k,
        ts.last().next_id() == ids.len(),
        ts.last().jobs().len() == ids.len(),
        forall|k: int| 0 <= k < ids.len() ==> (#[trigger] ts.last().jobs()[k]).id == k,
    decreases ids.len(),
{
    if ids.len() > 0 {
        let n = ids.len() - 1;
        let its = ts.drop_last();
        let iids = ids.drop_last();
        assert forall|k: int| 0 <= k < iids.len() implies created(
            #[trigger] its[k],
            its[k + 1],
            iids[k],
        ) by {
            assert(its[k] == ts[k] && its[k + 1] == ts[k + 1] && iids[k] == ids[k]);
        }
        law_ids_in_creation_order(its, iids);
        assert(created(ts[n], ts[n + 1], ids[n]));
        assert(its.last() == ts[n]);
        assert forall|k: int| 0 <= k < ids.len() implies #[trigger] ids[k] == k by {
            if k < n {
                assert(iids[k] == ids[k]);
            }
        }
        assert forall|k: int| 0 <= k < ids.len() implies (#[trigger] ts.last().jobs()[k]).id == k by {
            if k < n {
                assert(ts.last().jobs()[k] == its.last().jobs()[k]);
            }
        }
    }
}

/// The order of the stages of a download.
pub open spec fn stage_rank(s: Stage) -> nat {
    match s {
        Stage::FetchBook => 0,
        Stage::ParseToc => 1,
        Stage::DownloadChapters => 2,
        Stage::DownloadImages => 3,
        Stage::Pack => 4,
    }
}

/// The percentage of a download never goes down as it moves to a later stage and
/// counts more work done, the totals staying as they are.
pub proof fn law_percent_monotone(p1: Progress, p2: Progress)
    requires
        progress_wf(p1),
        progress_wf(p2),
        p1.chapters_total == p2.chapters_total,
        p1.images_total == p2.images_total,
        p1.chapters_done <= p2.chapters_done,
        p1.images_done <= p2.images_done,
        stage_rank(p1.stage_view()) <= stage_rank(p2.stage_view()),
    ensures
        percent_of(p1) <= percent_of(p2),
        percent_of(p2) <= 100,
{
    law_percent_at_most_100(p1);
    law_percent_at_most_100(p2);
    if p1.chapters_total > 0 {
        let t = p1.chapters_total as nat;
        assert((30 * (p1.chapters_done as nat)) / t <= (30 * (p2.chapters_done as nat)) / t)
            by {
            vstd::arithmetic::div_mod::lemma_div_is_ordered(
                30 * (p1.chapters_done as int),
                30 * (p2.chapters_done as int),
                t as int,
            );
        }
        assert((30 * (p1.chapters_done as nat)) / t <= 30) by (nonlinear_arith)
            requires
                p1.chapters_done <= t,
                t > 0,
        ;
    }
    if p1.images_total > 0 {
        let t = p1.images_total as nat;
        assert((60 * (p1.images_done as nat)) / t <= (60 * (p2.images_done as nat)) / t)
            by {
            vstd::arithmetic::div_mod::lemma_div_is_ordered(
                60 * (p1.images_done as int),
                60 * (p2.images_done as int),
                t as int,
            );
        }
    }
}

impl JobTable {
    /// The jobs, in the order they were created.
    pub closed spec fn jobs(&self) -> Seq<Job> {
        self.jobs@
    }

    /// The id the next job will get.
    pub closed spec fn next_id(&self) -> JobId {
        self.next_id
    }

    /// Ids are distinct and below the next id; progress counters stay within totals; a
    /// job that has not ended has neither a result path nor an error.
    pub open spec fn wf(&self) -> bool {
        &&& forall|i: int, j: int|
            0 <= i < j < self.jobs().len() ==> (#[trigger] self.jobs()[i]).id != (#[trigger] self.jobs()[j]).id
        &&& forall|i: int|
            0 <= i < self.jobs().len() ==> (#[trigger] self.jobs()[i]).id < self.next_id()
        &&& forall|i: int| 0 <= i < self.jobs().len() ==> progress_wf(#[trigger] self.jobs()[i].progress)
        &&& forall|i: int|
            0 <= i < self.jobs().len() && !is_finished(#[trigger] self.jobs()[i].status)
                ==> self.jobs()[i].error is None && self.jobs()[i].result_path is None
    }

    /// An empty table; the first id is 0.
    pub fn new() -> (t: JobTable)
        ensures
            t.wf(),
            t.jobs().len() == 0,
            t.next_id() == 0,
    {
        JobTable { jobs: Vec::new(), next_id: 0 }
    }

    /// Whether another job can still be given a fresh id.
    pub fn has_free_id(&self) -> (b: bool)
        ensures
            b == (self.next_id() < u64::MAX),
    {
        self.next_id < u64::MAX
    }

    /// The position of the job with id `id`.
    fn position(&self, id: JobId) -> (r: Option<usize>)
        requires
            self.wf(),
        ensures
            match r {
                Some(i) => i < self.jobs().len() && self.jobs()[i as int].id == id && job_index(
                    self.jobs(),
                    id,
                ) == i,
                None => !has_job(self.jobs(), id),
            },
    {
        let mut i: usize = 0;
        while i < self.jobs.len()
            invariant
                self.wf(),
                i <= self.jobs.len(),
                forall|k: int| 0 <= k < i ==> self.jobs@[k].id != id,
            decreases self.jobs.len() - i,
        {
            if self.jobs[i].id == id {
                proof {
                    let c = job_index(self.jobs(), id);
                    assert(0 <= c < self.jobs().len() && self.jobs()[c].id == id);
                    if c != i {
                        if c < i {
                            assert(self.jobs@[c].id != id);
                        } else {
                            assert(self.jobs()[i as int].id != self.jobs()[c].id);
                        }
                    }
                }
                return Some(i);
            }
            i += 1;
        }
        None
    }

    /// Queues a new job under the next id and returns that id.
    pub fn create_job(&mut self, url: String, selection: Selection, version: EpubVersion) -> (id:
        JobId)
        requires
            old(self).wf(),
            old(self).next_id() < u64::MAX,
        ensures
            final(self).wf(),
            table_step(*old(self), *final(self)),
            created(*old(self), *final(self), id),
            id == old(self).next_id(),
            !has_job(old(self).jobs(), id),
            final(self).next_id() == old(self).next_id() + 1,
            final(self).jobs().len() == old(self).jobs().len() + 1,
            forall|i: int|
                0 <= i < old(self).jobs().len() ==> final(self).jobs()[i] == old(self).jobs()[i],
            ({
                let j = final(self).jobs().last();
                &&& j.id == id
                &&& j.url == url
                &&& j.selection@ == selection@
                &&& j.version == version
                &&& j.status == JobStatus::Queued
                &&& j.progress.chapters_done == 0 && j.progress.chapters_total == 0
                &&& j.progress.images_done == 0 && j.progress.images_total == 0
                &&& !j.progress.cancel && j.progress.stage_view() == Stage::FetchBook
                &&& j.result_path is None && j.error is None
            }),
    {
        let id = self.next_id;
        let job = Job {
            id,
            url,
            selection,
            version,
            status: JobStatus::Queued,
            progress: Progress::new(),
            result_path: None,
            error: None,
        };
        self.jobs.push(job);
        self.next_id = id + 1;
        proof {
            assert(forall|i: int| 0 <= i < old(self).jobs().len() ==> old(self).jobs()[i].id < id);
            lemma_created_step(*old(self), *self, id);
        }
        id
    }

    /// Moves a queued job to `Running` and hands out what is needed to run it; any other
    /// job, or an unknown id, is left alone and gives `None`.
    pub fn start_job(&mut self, job_id: JobId) -> (r: Option<JobLaunch>)
        requires
            old(self).wf(),
        ensures
            final(self).wf(),
            table_step(*old(self), *final(self)),
            final(self).next_id() == old(self).next_id(),
            final(self).jobs().len() == old(self).jobs().len(),
            r is Some <==> has_job(old(self).jobs(), job_id) && old(self).jobs()[job_index(
                old(self).jobs(),
                job_id,
            )].status == JobStatus::Queued,
            r matches Some(l) ==> {
                let k = job_index(old(self).jobs(), job_id);
                let j = old(self).jobs()[k];
                &&& l.job_id == job_id
                &&& l.url == j.url
                &&& l.selection@ == j.selection@
                &&& l.version == j.version
                &&& final(self).jobs()[k].status == JobStatus::Running
                &&& final(self).jobs()[k].id == j.id
                &&& final(self).jobs()[k].url == j.url
                &&& final(self).jobs()[k].progress == j.progress
                &&& final(self).jobs()[k].result_path == j.result_path
                &&& final(self).jobs()[k].error == j.error
                &&& forall|i: int|
                    0 <= i < old(self).jobs().len() && i != k ==> final(self).jobs()[i] == old(
                        self,
                    ).jobs()[i]
            },
            r is None ==> final(self).jobs() == old(self).jobs(),
    {
        match self.position(job_id) {
            None => {
                proof { lemma_pointwise_step(*old(self), *self); }
                None
            },
            Some(i) => {
                if self.jobs[i].status != JobStatus::Queued {
                    proof { lemma_pointwise_step(*old(self), *self); }
                    return None;
                }
                let launch = JobLaunch {
                    job_id,
                    url: self.jobs[i].url.clone(),
                    selection: self.jobs[i].selection.clone(),
                    version: self.jobs[i].version,
                };
                let mut job = self.jobs.remove(i);
                job.status = JobStatus::Running;
                self.jobs.insert(i, job);
                proof { lemma_pointwise_step(*old(self), *self); }
                Some(launch)
            },
        }
    }

    /// Records how a running job ended: its path on success, `Cancelled` for a cancelled
    /// run, its message on any other failure. Gives the event to announce, or `None`,
    /// changing nothing, for an unknown id or a job that is not running.
    pub fn record_outcome(&mut self, job_id: JobId, outcome: Result<String, Error>) -> (ev: Option<
        Event,
    >)
        requires
            old(self).wf(),
        ensures
            final(self).wf(),
            table_step(*old(self), *final(self)),
            final(self).next_id() == old(self).next_id(),
            final(self).jobs().len() == old(self).jobs().len(),
            ev is Some <==> has_job(old(self).jobs(), job_id) && old(self).jobs()[job_index(
                old(self).jobs(),
                job_id,
            )].status == JobStatus::Running,
            ev is None ==> final(self).jobs() == old(self).jobs(),
            ev matches Some(e) ==> {
                let k = job_index(old(self).jobs(), job_id);
                let j = final(self).jobs()[k];
                let o = old(self).jobs()[k];
                &&& j.id == o.id && j.url == o.url && j.progress == o.progress
                &&& j.selection@ == o.selection@ && j.version == o.version
                &&& forall|i: int|
                    0 <= i < old(self).jobs().len() && i != k ==> final(self).jobs()[i] == old(
                        self,
                    ).jobs()[i]
                &&& match outcome {
                    Ok(path) => j.status == JobStatus::Completed && j.result_path == Some(path)
                        && j.error == o.error && e == (Event::JobCompleted {
                        job_id,
                        path,
                    }),
                    Err(err) => if err.kind == ErrorKind::Cancelled {
                        j.status == JobStatus::Cancelled && j.result_path == o.result_path
                            && j.error == o.error && e == (Event::JobCancelled { job_id })
                    } else {
                        j.status == JobStatus::Failed && j.result_path == o.result_path
                            && j.error == Some(err.message) && e == (Event::JobFailed {
                            job_id,
                            message: err.message,
                        })
                    },
                }
            },
    {
        match self.position(job_id) {
            None => {
                proof { lemma_pointwise_step(*old(self), *self); }
                None
            },
            Some(i) => {
                if self.jobs[i].status != JobStatus::Running {
                    proof { lemma_pointwise_step(*old(self), *self); }
                    return None;
                }
                let mut job = self.jobs.remove(i);
                let ev = match outcome {
                    Ok(path) => {
                        job.status = JobStatus::Completed;
                        let p = path.clone();
                        job.result_path = Some(path);
                        Event::JobCompleted { job_id, path: p }
                    },
                    Err(err) => {
                        if err.kind == ErrorKind::Cancelled {
                            job.status = JobStatus::Cancelled;
                            Event::JobCancelled { job_id }
                        } else {
                            job.status = JobStatus::Failed;
                            let m = err.message.clone();
                            job.error = Some(err.message);
                            Event::JobFailed { job_id, message: m }
                        }
                    },
                };
                self.jobs.insert(i, job);
                proof { lemma_pointwise_step(*old(self), *self); }
                Some(ev)
            },
        }
    }

    /// Asks the job with id `job_id`, if any, to stop.
    pub fn cancel_job(&mut self, job_id: JobId)
        requires
            old(self).wf(),
        ensures
            final(self).wf(),
            table_step(*old(self), *final(self)),
            final(self).next_id() == old(self).next_id(),
            cancel_marked(old(self).jobs(), final(self).jobs(), |j: Job| j.id == job_id),
    {
        match self.position(job_id) {
            None => {},
            Some(i) => {
                let mut job = self.jobs.remove(i);
                job.progress.cancel = true;
                self.jobs.insert(i, job);
            },
        }
        proof { lemma_pointwise_step(*old(self), *self); }
    }

    /// Asks every job to stop.
    pub fn cancel_all(&mut self)
        requires
            old(self).wf(),
        ensures
            final(self).wf(),
            table_step(*old(self), *final(self)),
            final(self).next_id() == old(self).next_id(),
            cancel_marked(old(self).jobs(), final(self).jobs(), |j: Job| true),
    {
        let mut i: usize = 0;
        while i < self.jobs.len()
            invariant
                self.wf(),
                i <= self.jobs.len(),
                self.next_id == old(self).next_id,
                self.jobs@.len() == old(self).jobs@.len(),
                forall|k: int|
                    0 <= k < old(self).jobs@.len() ==> {
                        let j = #[trigger] self.jobs@[k];
                        let o = old(self).jobs@[k];
                        &&& j.id == o.id && j.url == o.url && j.status == o.status
                        &&& j.selection == o.selection && j.version == o.version
                        &&& j.result_path == o.result_path && j.error == o.error
                        &&& (k < i ==> j.progress.cancel)
                        &&& (k >= i ==> j.progress.cancel == o.progress.cancel)
                        &&& j.progress.chapters_done == o.progress.chapters_done
                        &&& j.progress.chapters_total == o.progress.chapters_total
                        &&& j.progress.images_done == o.progress.images_done
                        &&& j.progress.images_total == o.progress.images_total
                        &&& j.progress.stage == o.progress.stage
                    },
            decreases self.jobs.len() - i,
        {
            let mut job = self.jobs.remove(i);
            job.progress.cancel = true;
            self.jobs.insert(i, job);
            i += 1;
        }
        proof { lemma_pointwise_step(*old(self), *self); }
    }

    /// Forgets the job with id `job_id` if it has ended; a queued or running job stays.
    pub fn remove_job(&mut self, job_id: JobId)
        requires
            old(self).wf(),
        ensures
            final(self).wf(),
            table_step(*old(self), *final(self)),
            final(self).next_id() == old(self).next_id(),
            removed_if_finished(old(self).jobs(), final(self).jobs(), job_id),
    {
        match self.position(job_id) {
            None => {
                proof { lemma_pointwise_step(*old(self), *self); }
            },
            Some(i) => {
                let st = self.jobs[i].status;
                if st == JobStatus::Completed || st == JobStatus::Failed || st
                    == JobStatus::Cancelled {
                    let _removed = self.jobs.remove(i);
                    proof {
                        lemma_remove_step(*old(self), *self, i as int);
                    }
                } else {
                    proof { lemma_pointwise_step(*old(self), *self); }
                }
            },
        }
    }

    /// Moves the job's progress to `stage`.
    pub fn set_stage(&mut self, job_id: JobId, stage: Stage)
        requires
            old(self).wf(),
        ensures
            final(self).wf(),
            table_step(*old(self), *final(self)),
            final(self).next_id() == old(self).next_id(),
            final(self).jobs().len() == old(self).jobs().len(),
            has_job(old(self).jobs(), job_id) ==> ({
                let k = job_index(old(self).jobs(), job_id);
                let o = old(self).jobs()[k].progress;
                &&& progress_replaced(old(self).jobs(), final(self).jobs(), k, final(self).jobs()[k].progress)
                &&& final(self).jobs()[k].progress.stage_view() == stage
                &&& final(self).jobs()[k].progress.chapters_done == o.chapters_done
                &&& final(self).jobs()[k].progress.chapters_total == o.chapters_total
                &&& final(self).jobs()[k].progress.images_done == o.images_done
                &&& final(self).jobs()[k].progress.images_total == o.images_total
                &&& final(self).jobs()[k].progress.cancel == o.cancel
            }),
            !has_job(old(self).jobs(), job_id) ==> final(self).jobs() == old(self).jobs(),
    {
        if let Some(i) = self.position(job_id) {
            let mut job = self.jobs.remove(i);
            job.progress.set_stage(stage);
            self.jobs.insert(i, job);
        }
        proof { lemma_pointwise_step(*old(self), *self); }
    }

    /// Sets how many chapters the job will download, with none done yet.
    pub fn set_chapters_total(&mut self, job_id: JobId, total: usize)
        requires
            old(self).wf(),
        ensures
            final(self).wf(),
            table_step(*old(self), *final(self)),
            final(self).next_id() == old(self).next_id(),
            final(self).jobs().len() == old(self).jobs().len(),
            has_job(old(self).jobs(), job_id) ==> ({
                let k = job_index(old(self).jobs(), job_id);
                let o = old(self).jobs()[k].progress;
                progress_replaced(
                    old(self).jobs(),
                    final(self).jobs(),
                    k,
                    (Progress { chapters_total: total, chapters_done: min_count(o.chapters_done, total), ..o }),
                )
            }),
            !has_job(old(self).jobs(), job_id) ==> final(self).jobs() == old(self).jobs(),
    {
        if let Some(i) = self.position(job_id) {
            let mut job = self.jobs.remove(i);
            job.progress.chapters_total = total;
            if job.progress.chapters_done > total {
                job.progress.chapters_done = total;
            }
            self.jobs.insert(i, job);
        }
        proof { lemma_pointwise_step(*old(self), *self); }
    }

    /// Counts one more chapter as done, up to the total.
    pub fn chapter_done(&mut self, job_id: JobId)
        requires
            old(self).wf(),
        ensures
            final(self).wf(),
            table_step(*old(self), *final(self)),
            final(self).next_id() == old(self).next_id(),
            final(self).jobs().len() == old(self).jobs().len(),
            has_job(old(self).jobs(), job_id) ==> ({
                let k = job_index(old(self).jobs(), job_id);
                let o = old(self).jobs()[k].progress;
                progress_replaced(
                    old(self).jobs(),
                    final(self).jobs(),
                    k,
                    (Progress { chapters_done: count_up(o.chapters_done, o.chapters_total), ..o }),
                )
            }),
            !has_job(old(self).jobs(), job_id) ==> final(self).jobs() == old(self).jobs(),
    {
        if let Some(i) = self.position(job_id) {
            let mut job = self.jobs.remove(i);
            if job.progress.chapters_done < job.progress.chapters_total {
                job.progress.chapters_done = job.progress.chapters_done + 1;
            }
            self.jobs.insert(i, job);
        }
        proof { lemma_pointwise_step(*old(self), *self); }
    }

    /// Sets how many images the job will download, with none done yet.
    pub fn set_images_total(&mut self, job_id: JobId, total: usize)
        requires
            old(self).wf(),
        ensures
            final(self).wf(),
            table_step(*old(self), *final(self)),
            final(self).next_id() == old(self).next_id(),
            final(self).jobs().len() == old(self).jobs().len(),
            has_job(old(self).jobs(), job_id) ==> ({
                let k = job_index(old(self).jobs(), job_id);
                let o = old(self).jobs()[k].progress;
                progress_replaced(
                    old(self).jobs(),
                    final(self).jobs(),
                    k,
                    (Progress { images_total: total, images_done: min_count(o.images_done, total), ..o }),
                )
            }),
            !has_job(old(self).jobs(), job_id) ==> final(self).jobs() == old(self).jobs(),
    {
        if let Some(i) = self.position(job_id) {
            let mut job = self.jobs.remove(i);
            job.progress.images_total = total;
            if job.progress.images_done > total {
                job.progress.images_done = total;
            }
            self.jobs.insert(i, job);
        }
        proof { lemma_pointwise_step(*old(self), *self); }
    }

    /// Counts one more image as done, up to the total.
    pub fn image_done(&mut self, job_id: JobId)
        requires
            old(self).wf(),
        ensures
            final(self).wf(),
            table_step(*old(self), *final(self)),
            final(self).next_id() == old(self).next_id(),
            final(self).jobs().len() == old(self).jobs().len(),
            has_job(old(self).jobs(), job_id) ==> ({
                let k = job_index(old(self).jobs(), job_id);
                let o = old(self).jobs()[k].progress;
                progress_replaced(
                    old(self).jobs(),
                    final(self).jobs(),
                    k,
                    (Progress { images_done: count_up(o.images_done, o.images_total), ..o }),
                )
            }),
            !has_job(old(self).jobs(), job_id) ==> final(self).jobs() == old(self).jobs(),
    {
        if let Some(i) = self.position(job_id) {
            let mut job = self.jobs.remove(i);
            if job.progress.images_done < job.progress.images_total {
                job.progress.images_done = job.progress.images_done + 1;
            }
            self.jobs.insert(i, job);
        }
        proof { lemma_pointwise_step(*old(self), *self); }
    }

    /// Whether the job has been asked to stop (an unknown job counts as not asked).
    pub fn is_cancelled(&self, job_id: JobId) -> (b: bool)
        requires
            self.wf(),
        ensures
            b == (has_job(self.jobs(), job_id) && self.jobs()[job_index(
                self.jobs(),
                job_id,
            )].progress.cancel),
    {
        match self.position(job_id) {
            None => false,
            Some(i) => self.jobs[i].progress.cancel,
        }
    }

    /// A snapshot of every job, in creation order.
    pub fn get_snapshot(&self) -> (snap: Vec<JobSnapshot>)
        requires
            self.wf(),
        ensures
            snapshot_of(self.jobs(), snap@),
    {
        let mut snap: Vec<JobSnapshot> = Vec::new();
        let mut i: usize = 0;
        while i < self.jobs.len()
            invariant
                self.wf(),
                i <= self.jobs.len(),
                snap@.len() == i,
                forall|k: int|
                    0 <= k < i ==> {
                        let s = #[trigger] snap@[k];
                        let j = self.jobs()[k];
                        &&& s.job_id == j.id && s.url == j.url && s.status == j.status
                        &&& s.stage == j.progress.stage_view()
                        &&& s.percent as nat == percent_of(j.progress)
                        &&& s.chapters_done == j.progress.chapters_done
                        &&& s.chapters_total == j.progress.chapters_total
                        &&& s.images_done == j.progress.images_done
                        &&& s.images_total == j.progress.images_total
                        &&& s.result_path == j.result_path && s.error == j.error
                    },
            decreases self.jobs.len() - i,
        {
            let job = &self.jobs[i];
            assert(progress_wf(self.jobs()[i as int].progress));
            snap.push(
                JobSnapshot {
                    job_id: job.id,
                    url: job.url.clone(),
                    status: job.status,
                    stage: job.progress.get_stage(),
                    percent: calc_percent(&job.progress),
                    chapters_done: job.progress.chapters_done,
                    chapters_total: job.progress.chapters_total,
                    images_done: job.progress.images_done,
                    images_total: job.progress.images_total,
                    result_path: copy_opt(&job.result_path),
                    error: copy_opt(&job.error),
                },
            );
            i += 1;
        }
        snap
    }

    /// Carries out a command on the table. A started job is handed back for the caller
    /// to run; the event of a newly created job is handed back for the caller to emit.
    pub fn dispatch(&mut self, cmd: Command) -> (r: (CommandOutcome, Option<JobLaunch>, Option<Event>))
        requires
            old(self).wf(),
            cmd is CreateJob ==> old(self).next_id() < u64::MAX,
        ensures
            final(self).wf(),
            table_step(*old(self), *final(self)),
            match cmd {
                Command::CreateJob { url, selection, version } => {
                    &&& created(*old(self), *final(self), old(self).next_id())
                    &&& r.0 == CommandOutcome::Created(old(self).next_id())
                    &&& r.1 is None
                    &&& r.2 == Some(Event::JobCreated { job_id: old(self).next_id(), url })
                    &&& final(self).jobs().len() == old(self).jobs().len() + 1
                    &&& final(self).jobs().last().url == url
                    &&& final(self).jobs().last().id == old(self).next_id()
                    &&& final(self).jobs().last().selection@ == selection@
                    &&& final(self).jobs().last().version == version
                    &&& final(self).jobs().last().status == JobStatus::Queued
                    &&& final(self).next_id() == old(self).next_id() + 1
                    &&& forall|i: int|
                        0 <= i < old(self).jobs().len() ==> final(self).jobs()[i] == old(
                            self,
                        ).jobs()[i]
                },
                Command::StartJob { job_id } => {
                    &&& r.0 is Nothing
                    &&& r.2 is None
                    &&& (r.1 is Some <==> has_job(old(self).jobs(), job_id) && old(
                        self,
                    ).jobs()[job_index(old(self).jobs(), job_id)].status == JobStatus::Queued)
                    &&& (r.1 matches Some(l) ==> l.job_id == job_id && final(self).jobs()[job_index(
                        old(self).jobs(),
                        job_id,
                    )].status == JobStatus::Running)
                    &&& (r.1 is None ==> final(self).jobs() == old(self).jobs())
                },
                Command::GetSnapshot => r.0 matches CommandOutcome::Snapshot(s) && snapshot_of(
                    old(self).jobs(),
                    s@,
                ) && r.1 is None && r.2 is None && final(self).jobs() == old(self).jobs(),
                Command::CancelJob { job_id } => r.0 is Nothing && r.1 is None && r.2 is None
                    && cancel_marked(old(self).jobs(), final(self).jobs(), |j: Job| j.id == job_id),
                Command::CancelAll => r.0 is Nothing && r.1 is None && r.2 is None && cancel_marked(
                    old(self).jobs(),
                    final(self).jobs(),
                    |j: Job| true,
                ),
                Command::RemoveJob { job_id } => r.0 is Nothing && r.1 is None && r.2 is None
                    && removed_if_finished(old(self).jobs(), final(self).jobs(), job_id),
            },
    {
        match cmd {
            Command::CreateJob { url, selection, version } => {
                let u = url.clone();
                let id = self.create_job(url, selection, version);
                (CommandOutcome::Created(id), None, Some(Event::JobCreated { job_id: id, url: u }))
            },
            Command::StartJob { job_id } => {
                let launch = self.start_job(job_id);
                (CommandOutcome::Nothing, launch, None)
            },
            Command::CancelJob { job_id } => {
                self.cancel_job(job_id);
                (CommandOutcome::Nothing, None, None)
            },
            Command::CancelAll => {
                self.cancel_all();
                (CommandOutcome::Nothing, None, None)
            },
            Command::RemoveJob { job_id } => {
                self.remove_job(job_id);
                (CommandOutcome::Nothing, None, None)
            },
            Command::GetSnapshot => {
                let snap = self.get_snapshot();
                proof {
                    lemma_pointwise_step(*old(self), *self);
                }
                (CommandOutcome::Snapshot(snap), None, None)
            },
        }
    }
}

} // verus!
