use footloose::message::Payload;
use footloose::progress::{command_line_of, optional_command_line_of, expected_total, parse_count, ExitOutcome, Phase, ProgressSupervisor};

#[test]
fn command_line_substitutes_sources_and_destination() {
    let srcs = vec!["a b".to_owned(), "c".to_owned()];
    let line = command_line_of("cp -rv %s %d", &srcs, &Some("out".to_owned()));
    assert_eq!(line, "cp -rv \"a b\" \"c\" \"out\"");
    let line = command_line_of("rm %s; echo %d", &srcs, &None);
    assert_eq!(line, "rm \"a b\" \"c\"; echo %d");
    let line = command_line_of("%s%s", &vec!["x".to_owned()], &None);
    assert_eq!(line, "\"x\"\"x\"");
}

#[test]
fn totals_from_counting_output() {
    assert_eq!(expected_total(true, "  42\n"), 42);
    assert_eq!(expected_total(true, "+7"), 7);
    assert_eq!(expected_total(true, "x"), usize::MAX);
    assert_eq!(expected_total(false, "42"), usize::MAX);
    assert_eq!(expected_total(true, ""), usize::MAX);
    assert_eq!(parse_count("18446744073709551615"), Some(usize::MAX));
    assert_eq!(parse_count("18446744073709551616"), None);
    assert_eq!(parse_count("12a"), None);
}

fn progress_of(p: &Payload) -> u128 {
    match p {
        Payload::Progress { progress, .. } => *progress,
        _ => panic!("not a progress payload"),
    }
}

#[test]
fn supervisor_sends_start_progress_and_one_end() {
    let (mut sup, start) = ProgressSupervisor::start("cid", "P", 4);
    assert_eq!(start.status, "PROGRESS_TASK");
    assert_eq!(start.cid, "cid");
    let m = sup.on_tick();
    assert_eq!(m.status, "PROGRESS");
    assert_eq!(progress_of(&m.data), 25);
    sup.on_line();
    sup.on_line();
    assert_eq!(progress_of(&sup.on_tick().data), 75);
    sup.on_eof();
    let (end, ctrl) = sup.on_exit(&ExitOutcome::Success);
    assert_eq!(end.status, "PROGRESS_END");
    assert_eq!(ctrl.pid, "P");
}

#[test]
fn supervisor_reports_failure_text() {
    let (mut sup, _) = ProgressSupervisor::start("c", "P", 10);
    sup.on_eof();
    let (m, _) = sup.on_exit(&ExitOutcome::Failure("boom".to_owned()));
    assert_eq!(m.status, "PROGRESS_ERROR");
    match m.data {
        Payload::ProgressError { pid, msg } => {
            assert_eq!(pid, "P");
            assert_eq!(msg, "boom");
        },
        _ => panic!("not an error payload"),
    }
}

#[test]
fn read_errors_stop_without_total() {
    let (mut sup, _) = ProgressSupervisor::start("c", "P", usize::MAX);
    let (m, stop) = sup.on_read_error("bad");
    assert_eq!(m.status, "PROGRESS_ERROR");
    assert!(stop);
    let (mut sup, _) = ProgressSupervisor::start("c", "P", 3);
    assert!(!sup.on_read_error("bad").1);
    assert!(!sup.on_read_error("bad").1);
    assert!(sup.on_read_error("bad").1);
}

#[test]
fn abort_ends_the_supervisor() {
    let (mut sup, _) = ProgressSupervisor::start("c", "P", 3);
    let m = sup.on_abort();
    assert_eq!(m.status, "PROGRESS_ABORT");
    let _ = Phase::Done;
}

#[test]
fn shell_line_without_sources_keeps_the_placeholder() {
    let line = optional_command_line_of("ls %s > %d", &None, &Some("o".to_owned()));
    assert_eq!(line, "ls %s > \"o\"");
    let line = optional_command_line_of("ls %s", &Some(vec!["a".to_owned()]), &None);
    assert_eq!(line, "ls \"a\"");
}

#[test]
fn trimming_matches_str_trim() {
    for s in ["  42\n", "\u{3000}x y\u{a0}", "\t\r\n", "", "z", "\u{85}a\u{2028}"] {
        assert_eq!(footloose::progress::trim_text(s), s.trim());
    }
}
