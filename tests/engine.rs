use tm::check::{build_time_window, check_lines, collect_marks, current_window, CheckError};
use tm::infer::{infer_marks, Kind, Record};
use tm::log::{parse_line, parse_log, LogError};
use tm::mark::Mark;
use tm::render::{render_grid, weekday_name, RenderError};
use tm::time::Timestamp;
use tm::window::Window;

fn ts(secs: i64) -> Timestamp {
    Timestamp { secs, nanos: 0, offset: 0 }
}

fn lines(v: &[&str]) -> Vec<String> {
    v.iter().map(|s| s.to_string()).collect()
}

fn rule(left: char, mid: char, right: char) -> String {
    format!("{}{}{}{}{}", left, "─".repeat(11), mid, "─".repeat(192), right)
}

fn row(label: &str, body: &str) -> String {
    assert_eq!(label.chars().count(), 11);
    assert_eq!(body.chars().count(), 192);
    format!("\n│{}│{}│", label, body)
}

fn grid(rows: &[String]) -> String {
    let mut s = rule('┌', '┬', '┐');
    for (i, r) in rows.iter().enumerate() {
        if i > 0 {
            s.push('\n');
            s.push_str(&rule('├', '┼', '┤'));
        }
        s.push_str(r);
    }
    s.push('\n');
    s.push_str(&rule('└', '┴', '┘'));
    s.push('\n');
    s
}

fn body(spans: &[(usize, char)]) -> String {
    // Each span runs from the previous span's end bucket to its own.
    let mut s = String::new();
    let mut at = 0;
    for &(end, c) in spans {
        for _ in at..end {
            s.push(c);
        }
        at = end;
    }
    s
}

// 2024-01-01T00:00:00Z
const JAN1: i64 = 1704067200;

#[test]
fn window_contains_is_strict() {
    let w = Window::new(ts(10), ts(20));
    assert!(!w.contains(&ts(10)));
    assert!(!w.contains(&ts(20)));
    assert!(w.contains(&ts(15)));
    assert!(!w.contains(&ts(9)));
    assert!(w.contains(&Timestamp { secs: 10, nanos: 1, offset: 0 }));
    let u: Window<Timestamp> = Window::Unbound;
    assert!(u.contains(&ts(-5)));
    assert!(u.contains(&ts(10)));
}

#[test]
fn parse_line_reads_fields() {
    let r = parse_line("2024-01-01T09:00:00+00:00|start|work", 0).unwrap();
    assert_eq!(r.time, ts(JAN1 + 9 * 3600));
    assert_eq!(r.kind, Kind::Start);
    assert_eq!(r.message, "work");
}

#[test]
fn parse_line_keeps_bars_in_message() {
    let r = parse_line("2024-01-01T09:00:00+02:00|stop|a|b||c", 3).unwrap();
    assert_eq!(r.time, Timestamp { secs: JAN1 + 7 * 3600, nanos: 0, offset: 7200 });
    assert_eq!(r.kind, Kind::Stop);
    assert_eq!(r.message, "a|b||c");
}

#[test]
fn parse_line_without_message() {
    let r = parse_line("2024-01-01T09:00:00.5+00:00|start", 0).unwrap();
    assert_eq!(r.time, Timestamp { secs: JAN1 + 9 * 3600, nanos: 500_000_000, offset: 0 });
    assert_eq!(r.message, "");
}

#[test]
fn parse_line_errors() {
    assert_eq!(parse_line("yesterday|start|x", 4).unwrap_err(), LogError::BadTimestamp { line: 4 });
    assert_eq!(
        parse_line("2024-01-01T09:00:00+00:00", 1).unwrap_err(),
        LogError::MissingAction { line: 1 }
    );
    assert_eq!(
        parse_line("2024-01-01T09:00:00+00:00|pause|x", 2).unwrap_err(),
        LogError::UnknownAction { line: 2 }
    );
    assert_eq!(
        parse_line("2024-01-01T09:00:00+00:00||start", 2).unwrap_err(),
        LogError::UnknownAction { line: 2 }
    );
}

#[test]
fn parse_log_skips_empty_lines_and_checks_order() {
    let ok = parse_log(&lines(&[
        "",
        "2024-01-01T09:00:00+00:00|start|a",
        "",
        "2024-01-01T09:00:00+00:00|stop|b",
    ]))
    .unwrap();
    assert_eq!(ok.len(), 2);
    assert_eq!(ok[1].message, "b");
    let bad = parse_log(&lines(&[
        "2024-01-01T09:00:00+00:00|start|a",
        "2024-01-01T08:59:59+00:00|stop|b",
    ]));
    assert_eq!(bad.unwrap_err(), LogError::OutOfOrder { line: 1 });
    let first_error = parse_log(&lines(&["x|start", "y|start"]));
    assert_eq!(first_error.unwrap_err(), LogError::BadTimestamp { line: 0 });
}

#[test]
fn empty_log_gives_no_marks() {
    let ms = collect_marks(&Vec::new(), &Window::Unbound).unwrap();
    assert!(ms.is_empty());
}

#[test]
fn single_record_gives_its_mark_only() {
    let ms = collect_marks(&lines(&["2024-01-01T09:00:00+00:00|stop|x"]), &Window::Unbound).unwrap();
    assert_eq!(ms.len(), 1);
    assert!(matches!(&ms[0], Mark::Stop { time, message } if *time == ts(JAN1 + 9 * 3600) && message == "x"));
}

#[test]
fn alternating_log_infers_nothing() {
    let ms = collect_marks(
        &lines(&[
            "2024-01-01T09:00:00+00:00|start|a",
            "2024-01-01T10:00:00+00:00|stop|b",
            "2024-01-01T11:00:00+00:00|start|c",
            "2024-01-01T12:00:00+00:00|stop|d",
        ]),
        &Window::Unbound,
    )
    .unwrap();
    assert_eq!(ms.len(), 4);
    assert!(matches!(&ms[0], Mark::Start { message, .. } if message == "a"));
    assert!(matches!(&ms[1], Mark::Stop { message, .. } if message == "b"));
    assert!(matches!(&ms[2], Mark::Start { message, .. } if message == "c"));
    assert!(matches!(&ms[3], Mark::Stop { message, .. } if message == "d"));
}

#[test]
fn consecutive_starts_infer_a_stop() {
    let t1 = ts(JAN1 + 9 * 3600);
    let t2 = ts(JAN1 + 10 * 3600);
    let ms = collect_marks(
        &lines(&["2024-01-01T09:00:00+00:00|start|a", "2024-01-01T10:00:00+00:00|start|b"]),
        &Window::Unbound,
    )
    .unwrap();
    assert_eq!(ms.len(), 3);
    assert!(matches!(&ms[0], Mark::Start { time, .. } if *time == t1));
    assert!(matches!(&ms[1], Mark::InferredStop { start, end } if *start == t1 && *end == t2));
    assert!(matches!(&ms[2], Mark::Start { time, .. } if *time == t2));
}

#[test]
fn consecutive_stops_infer_a_start() {
    let recs = vec![
        Record { time: ts(100), kind: Kind::Stop, message: "x".to_string() },
        Record { time: ts(200), kind: Kind::Stop, message: "y".to_string() },
        Record { time: ts(300), kind: Kind::Start, message: "z".to_string() },
    ];
    let ms = infer_marks(recs, &Window::Unbound);
    assert_eq!(ms.len(), 4);
    assert!(matches!(&ms[0], Mark::Stop { time, .. } if *time == ts(100)));
    assert!(matches!(&ms[1], Mark::InferredStart { start, end } if *start == ts(100) && *end == ts(200)));
    assert!(matches!(&ms[2], Mark::Stop { time, .. } if *time == ts(200)));
    assert!(matches!(&ms[3], Mark::Start { time, .. } if *time == ts(300)));
}

#[test]
fn window_filters_marks() {
    let recs = vec![
        Record { time: ts(100), kind: Kind::Start, message: String::new() },
        Record { time: ts(200), kind: Kind::Start, message: String::new() },
        Record { time: ts(300), kind: Kind::Stop, message: String::new() },
    ];
    // Keeps Start(200), the inferred mark 100..200 (its end is inside), nothing at 100 or 300.
    let ms = infer_marks(recs, &Window::new(ts(150), ts(300)));
    assert_eq!(ms.len(), 2);
    assert!(matches!(&ms[0], Mark::InferredStop { start, end } if *start == ts(100) && *end == ts(200)));
    assert!(matches!(&ms[1], Mark::Start { time, .. } if *time == ts(200)));
}

#[test]
fn render_empty_is_borders_only() {
    let text = render_grid(&Vec::new()).unwrap();
    assert_eq!(text, grid(&[]));
    assert_eq!(text.lines().count(), 2);
}

#[test]
fn monday_work_example() {
    let text = check_lines(
        &lines(&["2024-01-01T09:00:00+00:00|start|work", "2024-01-01T12:00:00+00:00|stop|work"]),
        &Window::Unbound,
    )
    .unwrap();
    let expected = grid(&[row("  Monday   ", &body(&[(67, ' '), (90, '='), (192, ' ')]))]);
    assert_eq!(text, expected);
}

#[test]
fn inferred_stop_renders_e() {
    let text = check_lines(
        &lines(&["2024-01-01T09:00:00+00:00|start|a", "2024-01-01T10:00:00+00:00|start|b"]),
        &Window::Unbound,
    )
    .unwrap();
    let expected = grid(&[row("  Monday   ", &body(&[(67, ' '), (75, 'E'), (192, '=')]))]);
    assert_eq!(text, expected);
}

#[test]
fn inferred_start_renders_s() {
    let text = check_lines(
        &lines(&["2024-01-01T09:00:00+00:00|stop|a", "2024-01-01T10:00:00+00:00|stop|b"]),
        &Window::Unbound,
    )
    .unwrap();
    let expected = grid(&[row("  Monday   ", &body(&[(67, '='), (75, 'S'), (192, ' ')]))]);
    assert_eq!(text, expected);
}

#[test]
fn days_get_rows_and_dividers() {
    let text = check_lines(
        &lines(&[
            "2024-01-01T09:00:00+00:00|start|a",
            "2024-01-01T12:00:00+00:00|stop|a",
            "2024-01-03T00:16:00+00:00|start|b",
        ]),
        &Window::Unbound,
    )
    .unwrap();
    let expected = grid(&[
        row("  Monday   ", &body(&[(67, ' '), (90, '='), (192, ' ')])),
        row(" Wednesday ", &body(&[(2, ' '), (192, '=')])),
    ]);
    assert_eq!(text, expected);
    for l in text.lines() {
        assert_eq!(l.chars().count(), 1 + 11 + 1 + 192 + 1);
    }
}

#[test]
fn local_offset_decides_the_day() {
    // 2024-01-02T04:30Z is still Monday evening at -05:00.
    let text = check_lines(&lines(&["2024-01-01T23:30:00-05:00|start|late"]), &Window::Unbound).unwrap();
    let expected = grid(&[row("  Monday   ", &body(&[(176, ' '), (192, '=')]))]);
    assert_eq!(text, expected);
}

#[test]
fn days_before_the_epoch() {
    let t = Timestamp { secs: -3600, nanos: 0, offset: 0 };
    assert_eq!(t.day(), -1);
    assert_eq!(t.seconds_of_day(), 82800);
    assert_eq!(t.weekday(), 2);
    assert_eq!(weekday_name(t.weekday()), "Wednesday");
    assert_eq!(ts(0).weekday(), 3);
}

#[test]
fn render_rejects_marks_out_of_order() {
    let marks = vec![
        Mark::Stop { time: ts(JAN1 + 12 * 3600), message: String::new() },
        Mark::Start { time: ts(JAN1 + 9 * 3600), message: String::new() },
    ];
    assert_eq!(render_grid(&marks).unwrap_err(), RenderError::OutOfOrder { index: 1 });
    let earlier_day = vec![
        Mark::Stop { time: ts(JAN1 + 86400), message: String::new() },
        Mark::Start { time: ts(JAN1 + 23 * 3600), message: String::new() },
    ];
    assert_eq!(render_grid(&earlier_day).unwrap_err(), RenderError::OutOfOrder { index: 1 });
}

#[test]
fn overnight_inferred_mark_is_out_of_order() {
    let r = check_lines(
        &lines(&["2024-01-01T23:00:00+00:00|start|a", "2024-01-02T01:00:00+00:00|start|b"]),
        &Window::Unbound,
    );
    assert_eq!(r.unwrap_err(), CheckError::Render(RenderError::OutOfOrder { index: 1 }));
}

#[test]
fn check_reports_log_errors() {
    let r = check_lines(&lines(&["2024-01-01T09:00:00+00:00|begin|x"]), &Window::Unbound);
    assert_eq!(r.unwrap_err(), CheckError::Log(LogError::UnknownAction { line: 0 }));
}

#[test]
fn time_window_from_search() {
    let now = Timestamp { secs: 10_000, nanos: 7, offset: 3600 };
    assert!(matches!(build_time_window(&Vec::new(), now), Window::Unbound));
    match build_time_window(&vec!["today".to_string()], now) {
        Window::Bound { start, end } => {
            assert_eq!(end, now);
            assert_eq!(start, Timestamp { secs: 4_600, nanos: 7, offset: 3600 });
        }
        Window::Unbound => panic!("expected a bounded window"),
    }
}

#[test]
fn current_window_trails_now() {
    assert!(matches!(current_window(&Vec::new()), Window::Unbound));
    match current_window(&vec!["x".to_string()]) {
        Window::Bound { start, end } => {
            assert_eq!(end.secs - start.secs, 5400);
            assert!(end.secs > 1_600_000_000);
        }
        Window::Unbound => panic!("expected a bounded window"),
    }
}
