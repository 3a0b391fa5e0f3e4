use wenku2epub::book::EpubVersion;
use wenku2epub::error::{Error, ErrorKind};
use wenku2epub::manager::{calc_percent, JobTable};
use wenku2epub::model::{Progress, Selection, Stage};
use wenku2epub::protocol::{Command, CommandOutcome, Event, JobStatus};

fn table_with_job() -> (JobTable, u64) {
    let mut t = JobTable::new();
    let id = t.create_job("https://a/b".to_string(), Selection::All, EpubVersion::V3);
    (t, id)
}

#[test]
fn progress_stage_reads_back() {
    let mut p = Progress::new();
    assert_eq!(p.get_stage(), Stage::FetchBook);
    for s in [Stage::FetchBook, Stage::ParseToc, Stage::DownloadChapters, Stage::DownloadImages, Stage::Pack] {
        p.set_stage(s);
        assert_eq!(p.get_stage(), s);
    }
    assert_eq!(Stage::from(200u8), Stage::Pack);
}

#[test]
fn percent_by_stage() {
    let mut p = Progress::new();
    assert_eq!(calc_percent(&p), 2);
    p.set_stage(Stage::ParseToc);
    assert_eq!(calc_percent(&p), 5);
    p.set_stage(Stage::DownloadChapters);
    assert_eq!(calc_percent(&p), 10);
    p.chapters_total = 3;
    p.chapters_done = 2;
    assert_eq!(calc_percent(&p), 30);
    p.set_stage(Stage::DownloadImages);
    assert_eq!(calc_percent(&p), 40);
    p.images_total = 4;
    p.images_done = 4;
    assert_eq!(calc_percent(&p), 100);
    p.set_stage(Stage::Pack);
    assert_eq!(calc_percent(&p), 100);
}

#[test]
fn percent_never_exceeds_hundred() {
    let mut p = Progress::new();
    p.set_stage(Stage::DownloadImages);
    for total in 1..20usize {
        for done in 0..=total {
            p.images_total = total;
            p.images_done = done;
            assert!(calc_percent(&p) <= 100);
        }
    }
}

#[test]
fn job_ids_are_fresh_and_jobs_start_queued() {
    let mut t = JobTable::new();
    let a = t.create_job("u1".to_string(), Selection::All, EpubVersion::V2);
    let b = t.create_job("u2".to_string(), Selection::All, EpubVersion::V3);
    assert_eq!((a, b), (0, 1));
    let snap = t.get_snapshot();
    assert_eq!(snap.len(), 2);
    assert_eq!(snap[1].url, "u2");
    assert_eq!(snap[0].status, JobStatus::Queued);
    assert_eq!(snap[0].percent, 2);
}

#[test]
fn start_job_only_from_queued() {
    let (mut t, id) = table_with_job();
    let launch = t.start_job(id).unwrap();
    assert_eq!(launch.url, "https://a/b");
    assert_eq!(t.get_snapshot()[0].status, JobStatus::Running);
    assert!(t.start_job(id).is_none());
    assert!(t.start_job(99).is_none());
}

#[test]
fn record_outcome_sets_final_status() {
    let (mut t, id) = table_with_job();
    t.start_job(id);
    let ev = t.record_outcome(id, Ok("书.epub".to_string())).unwrap();
    assert!(matches!(ev, Event::JobCompleted { job_id: 0, ref path } if path == "书.epub"));
    assert_eq!(t.get_snapshot()[0].result_path.as_deref(), Some("书.epub"));

    let (mut t, id) = table_with_job();
    t.start_job(id);
    let ev = t
        .record_outcome(id, Err(Error::new(ErrorKind::Network, "boom".to_string())))
        .unwrap();
    assert!(matches!(ev, Event::JobFailed { ref message, .. } if message == "boom"));
    assert_eq!(t.get_snapshot()[0].status, JobStatus::Failed);
    assert_eq!(t.get_snapshot()[0].error.as_deref(), Some("boom"));

    let (mut t, id) = table_with_job();
    t.start_job(id);
    let ev = t
        .record_outcome(id, Err(Error::new(ErrorKind::Cancelled, "用户取消下载".to_string())))
        .unwrap();
    assert!(matches!(ev, Event::JobCancelled { job_id: 0 }));
    assert_eq!(t.get_snapshot()[0].status, JobStatus::Cancelled);
    assert!(t.record_outcome(42, Ok("x".to_string())).is_none());
}

#[test]
fn statuses_only_move_forward() {
    let (mut t, id) = table_with_job();
    // A queued job cannot be finished without having run.
    assert!(t.record_outcome(id, Ok("x".to_string())).is_none());
    assert_eq!(t.get_snapshot()[0].status, JobStatus::Queued);
    t.start_job(id);
    t.record_outcome(id, Err(Error::new(ErrorKind::Network, "boom".to_string())));
    // A finished job stays as it ended.
    assert!(t.record_outcome(id, Ok("y".to_string())).is_none());
    assert!(t.start_job(id).is_none());
    t.cancel_job(id);
    let s = &t.get_snapshot()[0];
    assert_eq!(s.status, JobStatus::Failed);
    assert_eq!(s.result_path, None);
    assert_eq!(s.error.as_deref(), Some("boom"));
}

#[test]
fn ids_follow_creation_order() {
    let mut t = JobTable::new();
    for k in 0..5u64 {
        assert_eq!(t.create_job(format!("u{k}"), Selection::All, EpubVersion::V3), k);
    }
    let snap = t.get_snapshot();
    for (k, s) in snap.iter().enumerate() {
        assert_eq!(s.job_id, k as u64);
        assert_eq!(s.url, format!("u{k}"));
    }
}

#[test]
fn percent_grows_with_stage_and_work() {
    let mut p = Progress::new();
    p.chapters_total = 4;
    p.images_total = 3;
    let mut last = calc_percent(&p);
    p.set_stage(Stage::ParseToc);
    for stage in [Stage::ParseToc, Stage::DownloadChapters] {
        p.set_stage(stage);
        assert!(calc_percent(&p) >= last);
        last = calc_percent(&p);
    }
    for d in 1..=4 {
        p.chapters_done = d;
        assert!(calc_percent(&p) >= last);
        last = calc_percent(&p);
    }
    p.set_stage(Stage::DownloadImages);
    for d in 0..=3 {
        p.images_done = d;
        assert!(calc_percent(&p) >= last);
        last = calc_percent(&p);
    }
    p.set_stage(Stage::Pack);
    assert!(calc_percent(&p) >= last);
    assert_eq!(calc_percent(&p), 100);
}

#[test]
fn remove_only_finished_jobs() {
    let (mut t, id) = table_with_job();
    t.remove_job(id);
    assert_eq!(t.get_snapshot().len(), 1);
    t.start_job(id);
    t.record_outcome(id, Ok("p".to_string()));
    t.remove_job(id);
    assert_eq!(t.get_snapshot().len(), 0);
}

#[test]
fn cancel_marks_jobs() {
    let (mut t, id) = table_with_job();
    let other = t.create_job("u".to_string(), Selection::All, EpubVersion::V3);
    t.cancel_job(id);
    assert!(t.is_cancelled(id));
    assert!(!t.is_cancelled(other));
    t.cancel_all();
    assert!(t.is_cancelled(other));
    assert!(!t.is_cancelled(77));
}

#[test]
fn progress_counters_stay_within_totals() {
    let (mut t, id) = table_with_job();
    t.set_stage(id, Stage::DownloadChapters);
    t.set_chapters_total(id, 2);
    t.chapter_done(id);
    t.chapter_done(id);
    t.chapter_done(id);
    let s = &t.get_snapshot()[0];
    assert_eq!((s.chapters_done, s.chapters_total, s.percent), (2, 2, 40));
    t.set_stage(id, Stage::DownloadImages);
    t.set_images_total(id, 3);
    t.image_done(id);
    let s = &t.get_snapshot()[0];
    assert_eq!((s.images_done, s.images_total, s.percent), (1, 3, 60));
    assert_eq!(s.stage, Stage::DownloadImages);
}

#[test]
fn dispatch_commands() {
    let mut t = JobTable::new();
    let (out, launch, ev) = t.dispatch(Command::CreateJob {
        url: "u".to_string(),
        selection: Selection::Range { start: 1, end: 2 },
        version: EpubVersion::V2,
    });
    assert!(matches!(out, CommandOutcome::Created(0)));
    assert!(launch.is_none());
    assert!(matches!(ev, Some(Event::JobCreated { job_id: 0, ref url }) if url == "u"));
    let (out, launch, _) = t.dispatch(Command::StartJob { job_id: 0 });
    assert!(matches!(out, CommandOutcome::Nothing));
    let launch = launch.unwrap();
    assert!(matches!(launch.selection, Selection::Range { start: 1, end: 2 }));
    assert_eq!(launch.version, EpubVersion::V2);
    let (out, _, _) = t.dispatch(Command::GetSnapshot);
    match out {
        CommandOutcome::Snapshot(s) => assert_eq!(s[0].status, JobStatus::Running),
        _ => panic!("expected a snapshot"),
    }
    t.dispatch(Command::CancelAll);
    assert!(t.is_cancelled(0));
    t.dispatch(Command::RemoveJob { job_id: 0 });
    assert_eq!(t.get_snapshot().len(), 1);
}
