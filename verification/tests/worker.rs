use pageserver_core::tenant_jobs::worker::{Job, JobError, JobStatus, Pool, WorkerStep};

#[derive(Debug, Clone, Eq, PartialEq, PartialOrd, Ord, Hash)]
struct PrintJob {
    to_print: String,
}

impl Job for PrintJob {
    type ErrorType = String;

    fn run(&self) -> Result<Option<u64>, String> {
        if self.to_print == "pls fail" {
            return Err("failed".to_string());
        }
        Ok(Some(10))
    }
}

fn job(text: &str) -> PrintJob {
    PrintJob { to_print: text.to_string() }
}

fn status_of<'a>(pool: &'a Pool<PrintJob>, job: &PrintJob) -> Option<&'a JobStatus<PrintJob>> {
    pool.job_table.status.get(job)
}

#[test]
fn pool_1() {
    let mut pool = Pool::<PrintJob>::new();
    let hello = job("hello from job");
    let mut now: u64 = 1_000;
    pool.queue_job(hello.clone(), now);
    assert!(matches!(
        status_of(&pool, &hello),
        Some(JobStatus::Ready { scheduled_for: 1_000 })
    ));

    // two workers take turns; the job asks to be run again each time
    let mut runs = 0;
    for round in 0..10 {
        let worker = if round % 2 == 0 { "test_worker_1" } else { "test_worker_2" };
        now += 1;
        match pool.next_step(worker.to_string(), now) {
            WorkerStep::Run(job) => {
                assert_eq!(job, hello);
                match status_of(&pool, &hello) {
                    Some(JobStatus::Running { worker_name, started_at }) => {
                        assert_eq!(worker_name, worker);
                        assert_eq!(*started_at, now);
                    }
                    _ => panic!("the job is not running"),
                }
                let result = job.run().map(|again| again.map(|after| now + after));
                pool.job_finished(&job, result.map_err(JobError::Error));
                runs += 1;
                now += 10;
            }
            _ => panic!("a run is due"),
        }
    }
    assert_eq!(runs, 10);
    assert_eq!(pool.job_table.queue.len(), 1);
    assert_eq!(pool.job_table.status.len(), 1);
}

#[test]
fn a_run_is_due_after_its_deadline() {
    let mut pool = Pool::<PrintJob>::new();
    assert!(matches!(pool.next_step("w".to_string(), 5), WorkerStep::WaitForWork));
    pool.queue_job(job("a"), 100);
    // not yet due at the deadline itself
    assert!(matches!(pool.next_step("w".to_string(), 100), WorkerStep::WaitFor(0)));
    assert!(matches!(pool.next_step("w".to_string(), 40), WorkerStep::WaitFor(60)));
    assert!(matches!(pool.next_step("w".to_string(), 101), WorkerStep::Run(_)));
    assert!(matches!(pool.next_step("w".to_string(), 102), WorkerStep::WaitForWork));
}

#[test]
fn the_earliest_run_comes_first() {
    let mut pool = Pool::<PrintJob>::new();
    pool.queue_job(job("late"), 300);
    pool.queue_job(job("early"), 100);
    pool.queue_job(job("middle"), 200);
    pool.queue_job(job("early too"), 100);
    assert!(matches!(pool.next_step("w".to_string(), 50), WorkerStep::WaitFor(50)));
    let mut order = Vec::new();
    loop {
        match pool.next_step("w".to_string(), 1_000) {
            WorkerStep::Run(job) => order.push(job.to_print),
            WorkerStep::WaitForWork => break,
            WorkerStep::WaitFor(_) => panic!("everything is due"),
        }
    }
    assert_eq!(order, vec!["early", "early too", "middle", "late"]);
}

#[test]
fn pop_due_takes_only_what_is_due() {
    let mut pool = Pool::<PrintJob>::new();
    pool.queue_job(job("a"), 100);
    pool.queue_job(job("b"), 50);
    assert!(pool.job_table.pop_due(50).is_none());
    let due = pool.job_table.pop_due(51).unwrap();
    assert_eq!(due.start_by, 50);
    assert_eq!(due.job, job("b"));
    assert!(pool.job_table.pop_due(100).is_none());
    assert_eq!(pool.job_table.queue.len(), 1);
}

#[test]
fn a_finished_job_is_forgotten() {
    let mut pool = Pool::<PrintJob>::new();
    let once = job("once");
    pool.queue_job(once.clone(), 0);
    assert!(matches!(pool.next_step("w".to_string(), 1), WorkerStep::Run(_)));
    pool.job_finished(&once, Ok(None));
    assert!(status_of(&pool, &once).is_none());
    assert!(pool.job_table.queue.is_empty());
}

#[test]
fn a_failed_job_is_stuck() {
    let mut pool = Pool::<PrintJob>::new();
    let failing = job("pls fail");
    pool.queue_job(failing.clone(), 0);
    let taken = match pool.next_step("w".to_string(), 1) {
        WorkerStep::Run(job) => job,
        _ => panic!("a run is due"),
    };
    let result = taken.run().map_err(JobError::Error);
    pool.job_finished(&taken, result);
    match status_of(&pool, &failing) {
        Some(JobStatus::Stuck(JobError::Error(message))) => assert_eq!(message, "failed"),
        _ => panic!("the job is not stuck"),
    }
    assert!(matches!(pool.next_step("w".to_string(), 2), WorkerStep::WaitForWork));
}

#[test]
fn a_panicked_job_is_stuck() {
    let mut pool = Pool::<PrintJob>::new();
    let panicking = job("pls panic");
    pool.queue_job(panicking.clone(), 0);
    assert!(matches!(pool.next_step("w".to_string(), 1), WorkerStep::Run(_)));
    pool.job_finished(&panicking, Err(JobError::Panic("AAA".to_string())));
    match status_of(&pool, &panicking) {
        Some(JobStatus::Stuck(JobError::Panic(message))) => assert_eq!(message, "AAA"),
        _ => panic!("the job is not stuck"),
    }
}

#[test]
fn queueing_a_job_again_keeps_one_status() {
    let mut pool = Pool::<PrintJob>::new();
    pool.queue_job(job("a"), 10);
    pool.queue_job(job("b"), 20);
    pool.queue_job(job("a"), 30);
    assert_eq!(pool.job_table.status.len(), 2);
    assert_eq!(pool.job_table.queue.len(), 3);
    assert!(matches!(
        status_of(&pool, &job("a")),
        Some(JobStatus::Ready { scheduled_for: 30 })
    ));
    pool.job_table.set_status(&job("b"), JobStatus::Ready { scheduled_for: 99 });
    assert!(matches!(
        status_of(&pool, &job("b")),
        Some(JobStatus::Ready { scheduled_for: 99 })
    ));
    assert!(pool.job_table.has_status(&job("a")));
    assert!(!pool.job_table.has_status(&job("c")));
}

#[test]
fn a_done_job_is_forgotten_whatever_is_scheduled() {
    let mut pool = Pool::<PrintJob>::new();
    let twice = job("twice");
    pool.queue_job(twice.clone(), 10);
    pool.queue_job(twice.clone(), 20);
    assert!(matches!(pool.next_step("w".to_string(), 11), WorkerStep::Run(_)));
    pool.job_finished(&twice, Ok(None));
    // the status is gone, the second run is still there
    assert!(status_of(&pool, &twice).is_none());
    assert!(!pool.job_table.has_status(&twice));
    assert_eq!(pool.job_table.queue.len(), 1);
    // it is not due yet
    assert!(pool.job_table.peek_due(20).is_none());
    assert!(matches!(pool.next_step("w".to_string(), 15), WorkerStep::WaitFor(5)));
    // once it is due, its job has no status: a worker must not take it
    let due = pool.job_table.peek_due(21).unwrap();
    assert_eq!(due.start_by, 20);
    assert_eq!(due.job, twice);
    assert!(!pool.job_table.has_status(&due.job));
}

#[test]
fn peek_due_leaves_the_run_where_it_is() {
    let mut pool = Pool::<PrintJob>::new();
    assert!(pool.job_table.peek_due(u64::MAX).is_none());
    pool.queue_job(job("a"), 100);
    pool.queue_job(job("b"), 50);
    assert!(pool.job_table.peek_due(50).is_none());
    assert_eq!(pool.job_table.peek_due(51).unwrap().job, job("b"));
    assert_eq!(pool.job_table.queue.len(), 2);
}
