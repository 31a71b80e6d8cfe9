use ethos_protocol_backend::job_queue::{create_job, CreateJobRequest, JobQueue, JobStatus};
use ethos_protocol_backend::json::JsonValue;

fn empty() -> JsonValue {
    JsonValue::Object(vec![])
}

#[test]
fn submit_creates_pending_job() {
    let mut queue = JobQueue::new();
    let job_id = queue.submit_job("backup", &empty());

    let job = queue.get_job(&job_id).expect("job should exist");
    assert_eq!(job.status, JobStatus::Pending);
    assert_eq!(job.id, job_id);
    assert!(job.started_at.is_none());
}

#[test]
fn start_transitions_pending_to_running() {
    let mut queue = JobQueue::new();
    let job_id = queue.submit_job("backup", &empty());

    assert!(queue.start_job(&job_id));
    let job = queue.get_job(&job_id).expect("job should exist");
    assert_eq!(job.status, JobStatus::Running);
    assert!(job.started_at.is_some());
}

#[test]
fn complete_finishes_running_job() {
    let mut queue = JobQueue::new();
    let job_id = queue.submit_job("backup", &empty());
    queue.start_job(&job_id);

    assert!(queue.complete_job(&job_id, "backup completed".to_string()));
    let job = queue.get_job(&job_id).expect("job should exist");
    assert_eq!(job.status, JobStatus::Completed);
    assert_eq!(job.result, Some("backup completed".to_string()));
    assert!(job.completed_at.is_some());
}

#[test]
fn fail_marks_job_as_failed() {
    let mut queue = JobQueue::new();
    let job_id = queue.submit_job("backup", &empty());
    queue.start_job(&job_id);

    assert!(queue.fail_job(&job_id, "disk full".to_string()));
    let job = queue.get_job(&job_id).expect("job should exist");
    assert_eq!(job.status, JobStatus::Failed);
    assert_eq!(job.error, Some("disk full".to_string()));
}

#[test]
fn cannot_start_running_job() {
    let mut queue = JobQueue::new();
    let job_id = queue.submit_job("backup", &empty());
    queue.start_job(&job_id);

    assert!(!queue.start_job(&job_id), "cannot re-start running job");
}

#[test]
fn cannot_complete_pending_job() {
    let mut queue = JobQueue::new();
    let job_id = queue.submit_job("backup", &empty());

    assert!(
        !queue.complete_job(&job_id, "done".to_string()),
        "cannot complete pending job"
    );
}

#[test]
fn list_includes_all_submitted_jobs() {
    let mut queue = JobQueue::new();
    let id1 = queue.submit_job("backup", &empty());
    let id2 = queue.submit_job("restore", &empty());

    let jobs = queue.list_jobs();
    assert_eq!(jobs.len(), 2);
    let ids: Vec<String> = jobs.iter().map(|j| j.id.clone()).collect();
    assert!(ids.contains(&id1));
    assert!(ids.contains(&id2));
}

#[test]
fn finished_jobs_stay_as_they_are() {
    let mut queue = JobQueue::new();
    let request = CreateJobRequest { job_type: "backup".to_string(), payload: empty() };
    let job = create_job(&mut queue, &request).job;
    assert_eq!(job.status, JobStatus::Pending);
    // A pending job may fail without having run.
    assert!(queue.fail_job_at(&job.id, "cancelled".to_string(), 7));
    assert!(!queue.start_job_at(&job.id, 8));
    assert!(!queue.complete_job_at(&job.id, "late".to_string(), 9));
    assert!(!queue.fail_job_at(&job.id, "again".to_string(), 10));
    let kept = queue.get_job(&job.id).unwrap();
    assert_eq!(kept.completed_at, Some(7));
    assert_eq!(kept.error, Some("cancelled".to_string()));
    assert_eq!(kept.result, None);
    assert!(!queue.start_job("no-such-job"));
    assert!(queue.get_job("no-such-job").is_none());
}

#[test]
fn jobs_are_listed_in_the_order_of_their_submission() {
    let mut queue = JobQueue::default();
    for (id, at) in [("one", 1), ("two", 2), ("three", 3)] {
        queue.submit_job_with(id.to_string(), at);
    }
    assert!(queue.start_job_at("two", 5));
    let request = CreateJobRequest { job_type: "backup".to_string(), payload: empty() };
    let last = create_job(&mut queue, &request).job;
    let ids: Vec<String> = queue.list_jobs().into_iter().map(|j| j.id).collect();
    assert_eq!(ids, vec!["one", "two", "three", last.id.as_str()]);
    // The other jobs stay as they were.
    assert_eq!(queue.get_job("two").unwrap().started_at, Some(5));
    assert_eq!(queue.get_job("three").unwrap().created_at, 3);
}
