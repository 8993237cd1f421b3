use nvm_tasks::decimal::decimal;
use nvm_tasks::download::{
    percent, plan_response, range_header, resume_offset, Phase, ResponsePlan, SignalStep, Transfer,
};
use nvm_tasks::node_install::{
    download_url, extracting_event, install_finished_event, trim_slashes, ReleaseOutcome,
};
use nvm_tasks::registry::{TaskError, TaskRegistry};

const CHUNK: u64 = 65_536;

#[test]
fn fresh_download_of_a_million_bytes() {
    let offset = resume_offset(false, 0);
    assert_eq!(offset, 0);
    assert_eq!(range_header(offset), None);
    let total = match plan_response(offset, 200, Some(1_000_000)) {
        ResponsePlan::Stream { total } => total,
        other => panic!("unexpected plan {:?}", other),
    };
    assert_eq!(total, 1_000_000);
    let id = "v20.0.0".to_string();
    let mut t = Transfer::start(&id, "Downloading", offset, total);
    let mut events = Vec::new();
    let mut left = 1_000_000u64;
    while left > 0 {
        assert!(matches!(t.check_signals(false, false), SignalStep::Proceed));
        let n = if left < CHUNK { left } else { CHUNK };
        events.push(t.on_chunk(n));
        left -= n;
    }
    t.end_of_stream();
    assert_eq!(t.phase, Phase::Finalizing);
    t.committed(true);
    assert_eq!(t.phase, Phase::Done);
    assert!(!t.discards_staging());
    assert_eq!(t.downloaded, 1_000_000);
    assert!(events[0].progress.unwrap() < 100);
    assert_eq!(events[0].progress, Some(6));
    assert_eq!(events[0].status, "Downloading");
    let mut last = 0;
    for e in &events {
        let p = e.progress.unwrap();
        assert!(p >= last);
        last = p;
    }
    assert_eq!(events.last().unwrap().progress, Some(100));
    let end = install_finished_event(&id, &ReleaseOutcome::Installed);
    assert_eq!(end.progress, Some(100));
    assert_eq!(end.finished, Some(true));
    assert_eq!(end.error, None);
}

#[test]
fn resume_requests_the_rest_and_ends_at_full_size() {
    let staged = 400_000u64;
    let full = 1_000_000u64;
    let offset = resume_offset(true, staged);
    assert_eq!(offset, staged);
    assert_eq!(range_header(offset), Some("bytes=400000-".to_string()));
    let total = match plan_response(offset, 206, Some(full - staged)) {
        ResponsePlan::Stream { total } => total,
        other => panic!("unexpected plan {:?}", other),
    };
    assert_eq!(total, full);
    let id = "v20.0.0".to_string();
    let mut t = Transfer::start(&id, "Downloading", offset, total);
    let first = t.on_chunk(100_000);
    assert_eq!(first.progress, Some(50));
    let _ = t.on_chunk(500_000);
    assert_eq!(t.downloaded, full);
    t.end_of_stream();
    t.committed(true);
    assert_eq!(t.phase, Phase::Done);
}

#[test]
fn pause_freezes_progress_and_resume_continues() {
    let id = "v20.0.0".to_string();
    let mut t = Transfer::start(&id, "Downloading", 0, 1_000_000);
    let _ = t.on_chunk(400_000);
    match t.check_signals(false, true) {
        SignalStep::Wait(e) => {
            assert_eq!(e.is_paused, Some(true));
            assert_eq!(e.progress, Some(40));
            assert_eq!(e.status, "Paused");
            assert_eq!(e.id, "v20.0.0");
        }
        _ => panic!("expected a pause"),
    }
    assert_eq!(t.phase, Phase::Paused);
    match t.check_signals(false, true) {
        SignalStep::Wait(e) => assert_eq!(e.progress, Some(40)),
        _ => panic!("expected a pause"),
    }
    assert!(matches!(t.check_signals(false, false), SignalStep::Proceed));
    assert_eq!(t.phase, Phase::Streaming);
    let e = t.on_chunk(600_000);
    assert_eq!(e.progress, Some(100));
    assert_eq!(e.is_paused, None);
}

#[test]
fn cancel_while_paused_discards_staging_and_unregisters() {
    let mut reg: TaskRegistry<u32> = TaskRegistry::new();
    reg.register("v20.0.0", 1).ok().unwrap();
    let id = "v20.0.0".to_string();
    let mut t = Transfer::start(&id, "Downloading", 0, 1_000);
    let _ = t.on_chunk(300);
    assert!(matches!(t.check_signals(false, true), SignalStep::Wait(_)));
    assert!(matches!(t.check_signals(true, true), SignalStep::Abort));
    assert_eq!(t.phase, Phase::Cancelled);
    assert!(t.discards_staging());
    let end = install_finished_event(&id, &ReleaseOutcome::Cancelled);
    assert_eq!(end.finished, Some(true));
    assert_eq!(reg.unregister("v20.0.0"), Some(1));
    assert!(matches!(reg.lookup("20.0.0"), Err(TaskError::NotFound(_))));
}

#[test]
fn failure_keeps_staging_file() {
    let id = "v20.0.0".to_string();
    let mut t = Transfer::start(&id, "Downloading", 10, 100);
    t.fail();
    assert_eq!(t.phase, Phase::Failed);
    assert!(!t.discards_staging());
    let mut u = Transfer::start(&id, "Downloading", 100, 100);
    u.end_of_stream();
    u.committed(false);
    assert_eq!(u.phase, Phase::Failed);
    assert!(!u.discards_staging());
}

#[test]
fn response_statuses() {
    assert_eq!(plan_response(500, 416, None), ResponsePlan::Finalize);
    assert_eq!(plan_response(0, 404, Some(10)), ResponsePlan::Fail { status: 404 });
    assert_eq!(plan_response(10, 500, None), ResponsePlan::Fail { status: 500 });
    assert_eq!(plan_response(10, 302, None), ResponsePlan::Fail { status: 302 });
    assert_eq!(plan_response(0, 200, None), ResponsePlan::Stream { total: 0 });
    assert_eq!(plan_response(5, 206, Some(7)), ResponsePlan::Stream { total: 12 });
    // a server that ignores the range would send the whole body again
    assert_eq!(plan_response(5, 200, Some(7)), ResponsePlan::Fail { status: 200 });
    assert_eq!(plan_response(5, 204, None), ResponsePlan::Fail { status: 204 });
    assert_eq!(plan_response(0, 204, None), ResponsePlan::Stream { total: 0 });
    assert_eq!(plan_response(u64::MAX, 206, Some(7)), ResponsePlan::Stream { total: u64::MAX });
}

#[test]
fn percent_values() {
    assert_eq!(percent(0, 0), 0);
    assert_eq!(percent(500, 0), 0);
    assert_eq!(percent(1, 3), 33);
    assert_eq!(percent(2, 3), 66);
    assert_eq!(percent(3, 3), 100);
    assert_eq!(percent(7, 3), 100);
    assert_eq!(percent(u64::MAX, u64::MAX), 100);
    assert_eq!(percent(u64::MAX / 2, u64::MAX), 49);
}

#[test]
fn unknown_total_reports_zero() {
    let id = "v1.0.0".to_string();
    let mut t = Transfer::start(&id, "Downloading", 0, 0);
    assert_eq!(t.on_chunk(1000).progress, Some(0));
}

#[test]
fn range_header_and_decimal() {
    assert_eq!(range_header(1), Some("bytes=1-".to_string()));
    assert_eq!(range_header(u64::MAX), Some("bytes=18446744073709551615-".to_string()));
    assert_eq!(decimal(0), "0");
    assert_eq!(decimal(1234567890), "1234567890");
}

#[test]
fn release_download_url() {
    assert_eq!(
        download_url("https://npmmirror.com/mirrors/node/", "v20.0.0", "64"),
        "https://npmmirror.com/mirrors/node/v20.0.0/node-v20.0.0-win-x64.zip"
    );
    assert_eq!(
        download_url("https://nodejs.org/dist//", "v18.1.0", "32"),
        "https://nodejs.org/dist/v18.1.0/node-v18.1.0-win-x86.zip"
    );
    assert_eq!(trim_slashes("a/b//"), "a/b");
    assert_eq!(trim_slashes("///"), "");
}

#[test]
fn install_events() {
    let id = "v20.0.0".to_string();
    let e = extracting_event(&id);
    assert_eq!(e.progress, None);
    assert_eq!(e.finished, None);
    let failed = install_finished_event(&id, &ReleaseOutcome::Failed("disk full".to_string()));
    assert_eq!(failed.progress, Some(0));
    assert_eq!(failed.finished, None);
    assert_eq!(failed.error, Some("disk full".to_string()));
    assert_eq!(failed.status, "Error: disk full");
    let cancelled = install_finished_event(&id, &ReleaseOutcome::Cancelled);
    assert_eq!(cancelled.finished, Some(true));
    assert_eq!(cancelled.error, None);
    assert_eq!(cancelled.status, "Cancelled");
}
