use m3u8_progress::supervisor::{
    outcome_of, replay, ChildEvent, Failure, ProcessOutcome, Supervisor, TelemetryEvent,
};

fn out(line: &str) -> ChildEvent {
    ChildEvent::Stdout(line.to_string())
}

fn err(line: &str) -> ChildEvent {
    ChildEvent::Stderr(line.to_string())
}

fn exited(code: Option<i32>) -> ChildEvent {
    ChildEvent::Exited(code, format!("{:?}", code))
}

fn completions(told: &[TelemetryEvent]) -> usize {
    told.iter().filter(|t| matches!(t, TelemetryEvent::RunCompleted(_))).count()
}

#[test]
fn exit_code_one_is_one_failure_at_the_end() {
    let told = replay(vec![
        out("Vid 960x540 | 2168 Kbps | 60 ---- 36/101 35.64% 56.60MB/163.34MB 5.12MBps 00:00:27"),
        err("WARN : something"),
        out("not a progress line"),
        out("Aud - 1/2 50% - - --:--:--"),
        exited(Some(1)),
    ]);
    assert_eq!(told.len(), 4);
    assert_eq!(completions(&told), 1);
    assert!(matches!(
        told.last(),
        Some(TelemetryEvent::RunCompleted(ProcessOutcome::Failed(Failure::Code(1))))
    ));
    assert!(matches!(&told[0], TelemetryEvent::ProgressUpdated(p) if p.video_progress.current == 36));
    assert!(matches!(&told[1], TelemetryEvent::Diagnostic(line) if line == "WARN : something"));
    assert!(matches!(&told[2], TelemetryEvent::ProgressUpdated(p)
        if p.video_progress.current == 36 && p.audio_progress.total == 2));
}

#[test]
fn exit_code_one_alone() {
    let told = replay(vec![exited(Some(1))]);
    assert_eq!(told.len(), 1);
    assert!(matches!(
        &told[0],
        TelemetryEvent::RunCompleted(ProcessOutcome::Failed(Failure::Code(1)))
    ));
}

#[test]
fn success_is_reported_once_and_last() {
    let told = replay(vec![err("a"), out("Sub --------- 1/1 100.00% - - 00:00:00"), exited(Some(0))]);
    assert_eq!(told.len(), 3);
    assert_eq!(completions(&told), 1);
    assert!(matches!(
        told.last(),
        Some(TelemetryEvent::RunCompleted(ProcessOutcome::Succeeded(0)))
    ));
}

#[test]
fn nothing_is_told_after_the_end() {
    let told = replay(vec![
        exited(Some(0)),
        err("late"),
        out("Sub --------- 1/1 100.00% - - 00:00:00"),
        exited(Some(3)),
    ]);
    assert_eq!(told.len(), 1);
    assert!(matches!(
        &told[0],
        TelemetryEvent::RunCompleted(ProcessOutcome::Succeeded(0))
    ));
}

#[test]
fn a_run_without_end_has_no_completion() {
    let told = replay(vec![err("a"), out("Vid - 1/2 50% - - 00:00:01"), err("b")]);
    assert_eq!(told.len(), 3);
    assert_eq!(completions(&told), 0);
    assert!(replay(vec![]).is_empty());
}

#[test]
fn outcome_of_each_kind_of_exit() {
    assert!(matches!(outcome_of(Some(0), "ok".to_string()), ProcessOutcome::Succeeded(0)));
    assert!(matches!(
        outcome_of(Some(-7), "x".to_string()),
        ProcessOutcome::Failed(Failure::Code(-7))
    ));
    assert!(matches!(
        outcome_of(None, "signal: 9 (SIGKILL)".to_string()),
        ProcessOutcome::Failed(Failure::Signal(text)) if text == "signal: 9 (SIGKILL)"
    ));
}

#[test]
fn supervisor_step_by_step() {
    let mut supervisor = Supervisor::new();
    assert!(!supervisor.is_closed());
    assert!(supervisor.handle(out("Vid but no progress")).is_none());
    assert!(supervisor.handle(out("Vid - 2147483648/1 1% - - 00:00:00")).is_none());
    assert_eq!(supervisor.current().video_progress.current, 0);
    let told = supervisor.handle(out("Vid - 7/9 77.7% 1KB 1KBps 00:00:02"));
    assert!(matches!(told, Some(TelemetryEvent::ProgressUpdated(p)) if p.video_progress.current == 7));
    assert_eq!(supervisor.current().video_progress.total, 9);
    assert!(matches!(
        supervisor.handle(err("Vid - 7/9 77.7% 1KB 1KBps 00:00:02")),
        Some(TelemetryEvent::Diagnostic(_))
    ));
    assert_eq!(supervisor.current().video_progress.current, 7);
    assert!(matches!(
        supervisor.handle(exited(None)),
        Some(TelemetryEvent::RunCompleted(ProcessOutcome::Failed(Failure::Signal(_))))
    ));
    assert!(supervisor.is_closed());
    assert!(supervisor.handle(err("late")).is_none());
    assert_eq!(supervisor.current().video_progress.current, 7);
}
