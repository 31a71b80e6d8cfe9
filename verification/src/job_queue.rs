//! A queue of background jobs.
//!
//! A job is pending when it is submitted, then running, and at last completed
//! or failed. A pending job may fail without having run.

use vstd::prelude::*;

use crate::clock::{utc_now, wall_clock_shows, Time};
use crate::ids::{is_new_id, new_id};
use crate::json::JsonValue;
use crate::table::Table;
use crate::text::copy_option;

verus! {

/// The state of a job.
#[derive(Debug, Clone, Copy, PartialEq, Eq, Structural)]
pub enum JobStatus {
    Pending,
    Running,
    Completed,
    Failed,
}

impl JobStatus {
    /// The job has come to its end.
    pub open spec fn is_final(self) -> bool {
        self is Completed || self is Failed
    }
}

/// A background job.
#[derive(Debug)]
pub struct Job {
    pub id: String,
    pub status: JobStatus,
    pub created_at: Time,
    pub started_at: Option<Time>,
    pub completed_at: Option<Time>,
    pub result: Option<String>,
    pub error: Option<String>,
}

impl Clone for Job {
    fn clone(&self) -> (r: Self)
        ensures
            r == *self,
    {
        Job {
            id: self.id.clone(),
            status: self.status,
            created_at: self.created_at,
            started_at: self.started_at,
            completed_at: self.completed_at,
            result: copy_option(&self.result),
            error: copy_option(&self.error),
        }
    }
}

/// A request to submit a job.
pub struct CreateJobRequest {
    pub job_type: String,
    pub payload: JsonValue,
}

/// The answer that shows a job.
pub struct JobResponse {
    pub job: Job,
}

/// The job is a new one.
pub open spec fn is_new_job(job: Job, id: Seq<char>, at: Time) -> bool {
    &&& job.id@ == id
    &&& job.status is Pending
    &&& job.created_at == at
    &&& job.started_at is None
    &&& job.completed_at is None
    &&& job.result is None
    &&& job.error is None
}

/// The job after it was started.
pub open spec fn started(job: Job, at: Time) -> Job {
    Job { status: JobStatus::Running, started_at: Some(at), ..job }
}

/// The job after it was completed.
pub open spec fn completed(job: Job, result: String, at: Time) -> Job {
    Job {
        status: JobStatus::Completed,
        completed_at: Some(at),
        result: Some(result),
        ..job
    }
}

/// The job after it failed.
pub open spec fn failed(job: Job, error: String, at: Time) -> Job {
    Job { status: JobStatus::Failed, completed_at: Some(at), error: Some(error), ..job }
}

/// There is such a job, and it is pending.
pub open spec fn can_start(queue: Map<Seq<char>, Job>, id: Seq<char>) -> bool {
    queue.contains_key(id) && queue[id].status is Pending
}

/// There is such a job, and it is running.
pub open spec fn can_complete(queue: Map<Seq<char>, Job>, id: Seq<char>) -> bool {
    queue.contains_key(id) && queue[id].status is Running
}

/// There is such a job, and it has not come to its end.
pub open spec fn can_fail(queue: Map<Seq<char>, Job>, id: Seq<char>) -> bool {
    queue.contains_key(id) && !queue[id].status.is_final()
}

/// The jobs by id.
pub struct JobQueue {
    jobs: Table<Job>,
}

impl JobQueue {
    pub closed spec fn view(&self) -> Map<Seq<char>, Job> {
        self.jobs@
    }

    /// The ids in the order in which the jobs were submitted.
    pub closed spec fn ids(&self) -> Seq<Seq<char>> {
        self.jobs.keys()
    }

    /// The jobs in the order in which they were submitted.
    pub open spec fn in_order(&self) -> Seq<Job> {
        self.ids().map_values(|id: Seq<char>| self@[id])
    }

    /// Each job stands under its id.
    pub closed spec fn wf(&self) -> bool {
        &&& self.jobs.wf()
        &&& forall|id: Seq<char>| #[trigger]
            self.jobs@.contains_key(id) ==> self.jobs@[id].id@ == id
    }

    /// Each job stands under its id, and each id is listed once.
    pub proof fn jobs_stand_under_their_ids(&self)
        requires
            self.wf(),
        ensures
            forall|id: Seq<char>| #[trigger] self@.contains_key(id) ==> self@[id].id@ == id,
            forall|id: Seq<char>| #[trigger] self.ids().contains(id) <==> self@.contains_key(id),
            forall|i: int|
                0 <= i < self.in_order().len() ==> (#[trigger] self.in_order()[i]).id@
                    == self.ids()[i],
            self.ids().no_duplicates(),
    {
        assert forall|i: int| 0 <= i < self.in_order().len() implies (
        #[trigger] self.in_order()[i]).id@ == self.ids()[i] by {
            assert(self.jobs@.contains_key(self.jobs.keys()[i]));
        }
    }

    /// A queue without jobs.
    pub fn new() -> (r: Self)
        ensures
            r.wf(),
            r@ == Map::<Seq<char>, Job>::empty(),
            r.ids() == Seq::<Seq<char>>::empty(),
    {
        JobQueue { jobs: Table::new() }
    }

    /// Submits a job under an id, at a moment, and shows it.
    pub fn submit_job_with(&mut self, id: String, at: Time) -> (r: Job)
        requires
            old(self).wf(),
        ensures
            final(self).wf(),
            is_new_job(r, id@, at),
            listed(old(self), r, final(self)),
    {
        let job = Job {
            id: id.clone(),
            status: JobStatus::Pending,
            created_at: at,
            started_at: None,
            completed_at: None,
            result: None,
            error: None,
        };
        self.jobs.insert(id, job.clone());
        assert(!old(self)@.contains_key(id@) ==> self.in_order() =~= old(self).in_order().push(job));
        job
    }

    /// Submits a job and returns its id.
    pub fn submit_job(&mut self, _job_type: &str, _payload: &JsonValue) -> (r: String)
        requires
            old(self).wf(),
        ensures
            final(self).wf(),
            is_new_id(r@),
            exists|at: Time|
                wall_clock_shows(at) && #[trigger] is_new_job(final(self)@[r@], r@, at),
            listed(old(self), final(self)@[r@], final(self)),
    {
        let id = new_id();
        let at = utc_now();
        let job = self.submit_job_with(id.clone(), at);
        assert(self@[id@] == job && is_new_job(self@[id@], id@, at));
        id
    }

    /// The job with an id, if there is one.
    pub fn get_job(&self, job_id: &str) -> (r: Option<Job>)
        requires
            self.wf(),
        ensures
            match r {
                Some(job) => self@.contains_key(job_id@) && job == self@[job_id@],
                None => !self@.contains_key(job_id@),
            },
    {
        match self.jobs.get(job_id) {
            Some(job) => Some(job.clone()),
            None => None,
        }
    }

    /// Starts a pending job, at a moment; says whether it did.
    pub fn start_job_at(&mut self, job_id: &str, at: Time) -> (r: bool)
        requires
            old(self).wf(),
        ensures
            final(self).wf(),
            r == can_start(old(self)@, job_id@),
            final(self).ids() == old(self).ids(),
            final(self)@ == if r {
                old(self)@.insert(job_id@, started(old(self)@[job_id@], at))
            } else {
                old(self)@
            },
    {
        match self.jobs.get_mut(job_id) {
            Some(job) => {
                if job.status == JobStatus::Pending {
                    job.status = JobStatus::Running;
                    job.started_at = Some(at);
                    return true;
                }
            },
            None => {},
        }
        assert(self@ =~= old(self)@);
        false
    }

    /// Starts a pending job; says whether it did.
    pub fn start_job(&mut self, job_id: &str) -> (r: bool)
        requires
            old(self).wf(),
        ensures
            final(self).wf(),
            r == can_start(old(self)@, job_id@),
            final(self).ids() == old(self).ids(),
            !r ==> final(self)@ == old(self)@,
            r ==> exists|at: Time|
                wall_clock_shows(at) && final(self)@ == old(self)@.insert(
                    job_id@,
                    #[trigger] started(old(self)@[job_id@], at),
                ),
    {
        let at = utc_now();
        let ghost after = started(self@[job_id@], at);
        self.start_job_at(job_id, at)
    }

    /// Completes a running job, at a moment; says whether it did.
    pub fn complete_job_at(&mut self, job_id: &str, result: String, at: Time) -> (r: bool)
        requires
            old(self).wf(),
        ensures
            final(self).wf(),
            r == can_complete(old(self)@, job_id@),
            final(self).ids() == old(self).ids(),
            final(self)@ == if r {
                old(self)@.insert(job_id@, completed(old(self)@[job_id@], result, at))
            } else {
                old(self)@
            },
    {
        match self.jobs.get_mut(job_id) {
            Some(job) => {
                if job.status == JobStatus::Running {
                    job.status = JobStatus::Completed;
                    job.completed_at = Some(at);
                    job.result = Some(result);
                    return true;
                }
            },
            None => {},
        }
        assert(self@ =~= old(self)@);
        false
    }

    /// Completes a running job; says whether it did.
    pub fn complete_job(&mut self, job_id: &str, result: String) -> (r: bool)
        requires
            old(self).wf(),
        ensures
            final(self).wf(),
            r == can_complete(old(self)@, job_id@),
            final(self).ids() == old(self).ids(),
            !r ==> final(self)@ == old(self)@,
            r ==> exists|at: Time|
                wall_clock_shows(at) && final(self)@ == old(self)@.insert(
                    job_id@,
                    #[trigger] completed(old(self)@[job_id@], result, at),
                ),
    {
        let at = utc_now();
        let ghost after = completed(self@[job_id@], result, at);
        self.complete_job_at(job_id, result, at)
    }

    /// Lets a pending or running job fail, at a moment; says whether it did.
    pub fn fail_job_at(&mut self, job_id: &str, error: String, at: Time) -> (r: bool)
        requires
            old(self).wf(),
        ensures
            final(self).wf(),
            r == can_fail(old(self)@, job_id@),
            final(self).ids() == old(self).ids(),
            final(self)@ == if r {
                old(self)@.insert(job_id@, failed(old(self)@[job_id@], error, at))
            } else {
                old(self)@
            },
    {
        match self.jobs.get_mut(job_id) {
            Some(job) => {
                if job.status == JobStatus::Running || job.status == JobStatus::Pending {
                    job.status = JobStatus::Failed;
                    job.completed_at = Some(at);
                    job.error = Some(error);
                    return true;
                }
            },
            None => {},
        }
        assert(self@ =~= old(self)@);
        false
    }

    /// Lets a pending or running job fail; says whether it did.
    pub fn fail_job(&mut self, job_id: &str, error: String) -> (r: bool)
        requires
            old(self).wf(),
        ensures
            final(self).wf(),
            r == can_fail(old(self)@, job_id@),
            final(self).ids() == old(self).ids(),
            !r ==> final(self)@ == old(self)@,
            r ==> exists|at: Time|
                wall_clock_shows(at) && final(self)@ == old(self)@.insert(
                    job_id@,
                    #[trigger] failed(old(self)@[job_id@], error, at),
                ),
    {
        let at = utc_now();
        let ghost after = failed(self@[job_id@], error, at);
        self.fail_job_at(job_id, error, at)
    }

    /// All jobs, in the order in which they were submitted.
    pub fn list_jobs(&self) -> (r: Vec<Job>)
        requires
            self.wf(),
        ensures
            r@ == self.in_order(),
    {
        let mut out: Vec<Job> = Vec::new();
        let mut i: usize = 0;
        while i < self.jobs.len()
            invariant
                i <= self.jobs.keys().len(),
                self.jobs.wf(),
                out@ =~= self.in_order().take(i as int),
            decreases self.jobs.keys().len() - i,
        {
            out.push(self.jobs.value_at(i).clone());
            i = i + 1;
        }
        assert(self.in_order().take(i as int) =~= self.in_order());
        out
    }
}

/// The queue after a job was submitted: it stands under its id, and comes last where
/// the id is a new one. Every other job stays as it was.
pub open spec fn listed(before: &JobQueue, job: Job, after: &JobQueue) -> bool {
    &&& after@ == before@.insert(job.id@, job)
    &&& if before@.contains_key(job.id@) {
        after.ids() == before.ids()
    } else {
        after.ids() == before.ids().push(job.id@) && after.in_order() == before.in_order().push(job)
    }
}

impl Default for JobQueue {
    /// A queue without jobs.
    fn default() -> (r: Self)
        ensures
            r.wf(),
            r@ == Map::<Seq<char>, Job>::empty(),
            r.ids() == Seq::<Seq<char>>::empty(),
    {
        Self::new()
    }
}

/// Submits the job of a request and shows it.
pub fn create_job(queue: &mut JobQueue, _request: &CreateJobRequest) -> (r: JobResponse)
    requires
        old(queue).wf(),
    ensures
        final(queue).wf(),
        is_new_id(r.job.id@),
        exists|at: Time| wall_clock_shows(at) && #[trigger] is_new_job(r.job, r.job.id@, at),
        listed(old(queue), r.job, final(queue)),
{
    let id = new_id();
    let at = utc_now();
    let job = queue.submit_job_with(id, at);
    assert(is_new_job(job, job.id@, at));
    JobResponse { job }
}

/// A job that has come to its end can be neither started, nor completed, nor
/// fail.
pub proof fn finished_jobs_stay_finished(queue: Map<Seq<char>, Job>, id: Seq<char>)
    requires
        queue.contains_key(id),
        queue[id].status.is_final(),
    ensures
        !(queue[id].status is Pending),
        !(queue[id].status is Running),
{
}

/// A job that was started can be completed, and one that was completed was
/// started before: it keeps the times of both.
pub proof fn completed_jobs_were_started(job: Job, result: String, at: Time, later: Time)
    requires
        job.status is Pending,
    ensures
        started(job, at).status is Running,
        completed(started(job, at), result, later).status is Completed,
        completed(started(job, at), result, later).started_at == Some(at),
        completed(started(job, at), result, later).completed_at == Some(later),
        completed(started(job, at), result, later).id == job.id,
        completed(started(job, at), result, later).error == job.error,
{
}

/// Starting, completing and failing set the status and the time, keep the job's id and
/// the time of its submission, and record the result or the error.
pub proof fn changes_keep_the_job(job: Job, text: String, at: Time)
    ensures
        ({
            let s = started(job, at);
            let c = completed(job, text, at);
            let f = failed(job, text, at);
            &&& s.status is Running && s.started_at == Some(at) && s.id == job.id && s.created_at
                == job.created_at && s.completed_at == job.completed_at && s.result == job.result
                && s.error == job.error
            &&& c.status is Completed && c.completed_at == Some(at) && c.result == Some(text)
                && c.id == job.id && c.started_at == job.started_at && c.error == job.error
            &&& f.status is Failed && f.completed_at == Some(at) && f.error == Some(text) && f.id
                == job.id && f.started_at == job.started_at && f.result == job.result
        }),
{
}

/// A job that was submitted is pending, has not been started, and can be found under its
/// id; every other job is as it was.
pub proof fn submitted_jobs_are_found(
    before: JobQueue,
    job: Job,
    after: JobQueue,
    id: Seq<char>,
    at: Time,
    other: Seq<char>,
)
    requires
        listed(&before, job, &after),
        is_new_job(job, id, at),
        other != id,
    ensures
        after@.contains_key(id),
        after@[id] == job,
        job.status is Pending,
        job.created_at == at,
        job.started_at is None && job.completed_at is None && job.result is None
            && job.error is None,
        after@.contains_key(other) == before@.contains_key(other),
        before@.contains_key(other) ==> after@[other] == before@[other],
{
}

/// Only a pending job is started, only a running one is completed, and a job that is
/// either may fail. So a job is started once, ends once, and is over after that.
pub proof fn jobs_go_one_way(
    queue: Map<Seq<char>, Job>,
    id: Seq<char>,
    text: String,
    at: Time,
)
    ensures
        can_start(queue, id) <==> queue.contains_key(id) && queue[id].status == JobStatus::Pending,
        can_complete(queue, id) <==> queue.contains_key(id) && queue[id].status
            == JobStatus::Running,
        can_fail(queue, id) <==> queue.contains_key(id) && (queue[id].status == JobStatus::Pending
            || queue[id].status == JobStatus::Running),
        ({
            let s = queue.insert(id, started(queue[id], at));
            let c = queue.insert(id, completed(queue[id], text, at));
            let f = queue.insert(id, failed(queue[id], text, at));
            &&& !can_start(s, id) && can_complete(s, id) && can_fail(s, id)
            &&& !can_start(c, id) && !can_complete(c, id) && !can_fail(c, id)
            &&& !can_start(f, id) && !can_complete(f, id) && !can_fail(f, id)
        }),
{
}

} // verus!
