use loob::{
    ActiveTask, AppProgress, Progress, ProgressEvent, ReporterState, TaskState, UnavailabilityReason,
    WorkPhase, WorkState, YoutubeProgress, DELIVERY_FAILURE, MAX_ACTIVE_TASKS,
};

fn task(id: usize) -> ActiveTask {
    ActiveTask {
        task_id: format!("track-{id}"),
        source_index: id,
        title: format!("Track {id}"),
        state: TaskState::Analyzing,
    }
}

#[test]
fn snapshot_caps_the_active_list() {
    let mut work = WorkState::new(WorkPhase::Dsp, 20);
    for index in 0..20 {
        let mut t = task(index);
        t.task_id = format!("track-{index:02}");
        work.insert_active(t);
    }
    let ProgressEvent::WorkSnapshot { active, .. } = work.snapshot() else {
        unreachable!()
    };
    assert_eq!(active.len(), MAX_ACTIVE_TASKS);
}

#[test]
fn out_of_order_finishes_only_advance_aggregate_completion() {
    let mut work = WorkState::new(WorkPhase::Dsp, 2);
    work.insert_active(task(0));
    work.insert_active(task(1));
    work.remove_active("track-1");
    work.completed += 1;
    let ProgressEvent::WorkSnapshot { completed, .. } = work.snapshot() else {
        unreachable!()
    };
    assert_eq!(completed, 1);
    work.remove_active("track-0");
    work.completed += 1;
    let ProgressEvent::WorkSnapshot {
        completed, active, ..
    } = work.snapshot()
    else {
        unreachable!()
    };
    assert_eq!(completed, 2);
    assert!(active.is_empty());
}

#[test]
fn active_tasks_are_listed_in_identifier_order_once_each() {
    let mut work = WorkState::new(WorkPhase::Audio, 3);
    for id in ["b", "a", "c", "a"] {
        work.insert_active(ActiveTask {
            task_id: id.to_string(),
            source_index: 0,
            title: format!("t-{id}"),
            state: TaskState::Checking,
        });
    }
    let ids: Vec<&str> = work.active.iter().map(|t| t.task_id.as_str()).collect();
    assert_eq!(ids, vec!["a", "b", "c"]);
    work.remove_active("missing");
    assert_eq!(work.active.len(), 3);
}

fn resolving(id: &str, index: usize, total: usize) -> YoutubeProgress {
    YoutubeProgress::ResolvingAudio {
        task_id: id.to_string(),
        source_index: index,
        total,
        title: format!("Title {id}"),
    }
}

#[test]
fn messages_are_numbered_in_order() {
    let mut reporter = ReporterState::new();
    let first = reporter.youtube(YoutubeProgress::FetchingManifest, 0).unwrap();
    assert_eq!(first.seq, 1);
    assert_eq!(first.event, ProgressEvent::CheckingManifest);
    let second = reporter
        .youtube(
            YoutubeProgress::ManifestReady {
                title: "List".into(),
                total: 2,
                was_cached: true,
            },
            0,
        )
        .unwrap();
    assert_eq!(second.seq, 2);
    // The first work event of a phase is always sent.
    let third = reporter.youtube(resolving("a", 0, 2), 10).unwrap();
    assert_eq!(third.seq, 3);
    // Another start within the update interval waits.
    assert!(reporter.youtube(resolving("b", 1, 2), 20).is_none());
    assert!(reporter.work_dirty);
    // The periodic tick sends it once the interval has passed.
    assert!(reporter.tick(30).is_none());
    let AppProgress { seq, event } = reporter.tick(10 + 75_000_000).unwrap();
    assert_eq!(seq, 4);
    let ProgressEvent::WorkSnapshot { active, .. } = event else {
        unreachable!()
    };
    assert_eq!(active.len(), 2);
    assert!(reporter.tick(10 + 75_000_001).is_none());
}

#[test]
fn finishing_the_phase_sends_a_snapshot_at_once() {
    let mut reporter = ReporterState::new();
    reporter.youtube(resolving("a", 0, 2), 0);
    reporter.youtube(resolving("b", 1, 2), 1);
    assert!(reporter
        .youtube(
            YoutubeProgress::AudioReady {
                task_id: "a".into(),
                source_index: 0,
                total: 2,
                title: "Title a".into(),
                was_cached: true,
            },
            2,
        )
        .is_none());
    let last = reporter
        .youtube(
            YoutubeProgress::AudioSkipped {
                task_id: "b".into(),
                source_index: 1,
                total: 2,
                title: "Title b".into(),
                reason: UnavailabilityReason::Removed,
                was_cached: false,
            },
            3,
        )
        .unwrap();
    let ProgressEvent::WorkSnapshot {
        work_phase,
        completed,
        total,
        counters,
        active,
    } = last.event
    else {
        unreachable!()
    };
    assert_eq!(work_phase, WorkPhase::Audio);
    assert_eq!((completed, total), (2, 2));
    assert_eq!(counters.cached, 1);
    assert_eq!(counters.skipped, 1);
    assert_eq!(counters.downloaded, 0);
    assert!(active.is_empty());
}

#[test]
fn optimizing_flushes_the_analysis_phase_first() {
    let mut reporter = ReporterState::new();
    let messages = reporter.pipeline(
        Progress::Analyzing {
            task_id: "local-0".into(),
            source_index: 0,
            total: 1,
            title: "T".into(),
        },
        0,
    );
    assert_eq!(messages.len(), 1);
    let messages = reporter.pipeline(
        Progress::Analyzed {
            task_id: "local-0".into(),
            source_index: 0,
            total: 1,
            title: "T".into(),
        },
        1,
    );
    assert_eq!(messages.len(), 1);
    let messages = reporter.pipeline(Progress::Optimizing { total: 1 }, 2);
    assert_eq!(messages.len(), 2);
    assert!(matches!(messages[0].event, ProgressEvent::WorkSnapshot { completed: 1, .. }));
    assert_eq!(messages[1].event, ProgressEvent::Optimizing { total: 1 });
    assert_eq!(messages[1].seq, messages[0].seq + 1);
    assert!(reporter.work.is_none());
}

#[test]
fn failing_active_tasks_caps_completion_at_the_total() {
    let mut reporter = ReporterState::new();
    reporter.pipeline(
        Progress::Analyzing {
            task_id: "x".into(),
            source_index: 0,
            total: 1,
            title: "X".into(),
        },
        0,
    );
    reporter.pipeline(
        Progress::CacheHit {
            task_id: "y".into(),
            source_index: 1,
            total: 1,
            title: "Y".into(),
        },
        1,
    );
    let message = reporter.fail_active(2).unwrap();
    let ProgressEvent::WorkSnapshot {
        completed,
        total,
        counters,
        active,
        ..
    } = message.event
    else {
        unreachable!()
    };
    assert_eq!((completed, total), (1, 1));
    assert_eq!(counters.failed, 1);
    assert_eq!(counters.cached, 1);
    assert!(active.is_empty());
    assert!(ReporterState::new().fail_active(0).is_none());
}

#[test]
fn delivery_failures_are_remembered() {
    let mut reporter = ReporterState::new();
    let message = reporter.send(ProgressEvent::Completed { total: 3 });
    assert_eq!(message.seq, 1);
    assert_eq!(reporter.record_delivery(true), Ok(()));
    assert_eq!(reporter.delivery_status(), Ok(()));
    assert_eq!(
        reporter.record_delivery(false),
        Err(DELIVERY_FAILURE.to_string())
    );
    assert_eq!(reporter.delivery_status(), Err(DELIVERY_FAILURE.to_string()));
    assert!(reporter.flush(5).is_none());
}
