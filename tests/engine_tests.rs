use mobile_steps::engine::{Command, Event, Run, MAX_SCROLLS};
use mobile_steps::reporting::TestReport;
use mobile_steps::steps::{AndroidAction, AndroidElementSelector, AndroidNormalStep};

fn log(m: &str) -> AndroidNormalStep {
    AndroidNormalStep::LogStep { log: m.to_string() }
}

fn element(id: &str, actions: Vec<AndroidAction>) -> AndroidNormalStep {
    AndroidNormalStep::AndroidElementStep {
        selector: AndroidElementSelector::Id { id: id.to_string() },
        actions,
    }
}

fn failed(reason: &str) -> Event {
    Event::Failed { reason: reason.to_string() }
}

fn start(steps: Vec<AndroidNormalStep>) -> Run {
    Run::start(steps, "suite.json".to_string(), "android".to_string())
}

#[test]
fn log_only_script_never_reaches_the_driver() {
    let run = start(vec![log("one"), log("two"), log("three")]);
    assert!(matches!(run.command(), Command::Finished));
    assert!(run.is_finished());
    assert_eq!(run.report.steps_executed, 3);
    assert_eq!(run.outcomes, vec![true, true, true]);
    assert_eq!(run.report.details, "log: one: passed\nlog: two: passed\nlog: three: passed\n");
    let report = run.finish(7).ok().unwrap();
    assert_eq!(report.steps_executed, 3);
    assert_eq!(report.execution_time_ms, 7);
}

#[test]
fn second_action_failure_is_cited() {
    let mut run = start(vec![
        element("field", vec![AndroidAction::TapOn, AndroidAction::InsertData { data: "abc".to_string() }]),
        log("after"),
    ]);
    match run.command() {
        Command::Find { query } => {
            assert_eq!(query.text, "new UiSelector().resourceIdMatches(\"field\");")
        }
        _ => panic!("expected a lookup"),
    }
    run.on_event(Event::Succeeded);
    assert!(matches!(run.command(), Command::Tap));
    run.on_event(Event::Succeeded);
    match run.command() {
        Command::EnterText { text } => assert_eq!(text, "abc"),
        _ => panic!("expected text entry"),
    }
    run.on_event(failed("not editable"));
    assert!(run.is_finished());
    assert_eq!(run.outcomes, vec![false, true]);
    assert_eq!(
        run.report.details,
        "element field: failed: action 2 insert_data: not editable\nlog: after: passed\n"
    );
}

#[test]
fn step_failure_does_not_abort_the_run() {
    let mut run = start(vec![
        element("missing", vec![AndroidAction::AssertVisible]),
        AndroidNormalStep::Pause { pause: 250 },
    ]);
    run.on_event(failed("no such element"));
    match run.command() {
        Command::Sleep { ms } => assert_eq!(ms, 250),
        _ => panic!("expected a pause"),
    }
    run.on_event(Event::Succeeded);
    assert!(run.is_finished());
    assert_eq!(run.outcomes, vec![false, true]);
    assert_eq!(
        run.report.details,
        "element missing: failed: element not found: no such element\npause 250 ms: passed\n"
    );
    assert!(run.finish(10).is_ok());
}

#[test]
fn malformed_selector_fails_its_step_without_the_driver() {
    let run = start(vec![
        AndroidNormalStep::AndroidElementStep {
            selector: AndroidElementSelector::Text { text: String::new() },
            actions: vec![AndroidAction::TapOn],
        },
        log("next"),
    ]);
    assert!(matches!(run.command(), Command::Finished));
    assert_eq!(run.outcomes, vec![false, true]);
    assert_eq!(run.report.details, "element : failed: empty selector value\nlog: next: passed\n");
}

#[test]
fn scroll_search_that_never_resolves_gives_up() {
    let mut run = start(vec![element("far", vec![AndroidAction::ScrollUntilVisible])]);
    run.on_event(Event::Succeeded);
    let mut events = 0;
    let mut scrolls = 0;
    while !run.is_finished() {
        match run.command() {
            Command::Reveal { .. } => run.on_event(failed("not visible")),
            Command::ScrollDown => {
                scrolls += 1;
                run.on_event(Event::Succeeded)
            }
            _ => panic!("unexpected command"),
        }
        events += 1;
        assert!(events <= 2 * MAX_SCROLLS + 1);
    }
    assert_eq!(scrolls, MAX_SCROLLS);
    assert_eq!(run.outcomes, vec![false]);
    assert_eq!(
        run.report.details,
        "element far: failed: action 1 scroll_until_visible: not visible\n"
    );
}

#[test]
fn scroll_search_that_resolves_passes() {
    let mut run = start(vec![element("near", vec![AndroidAction::ScrollUntilVisible, AndroidAction::TapOn])]);
    run.on_event(Event::Succeeded);
    run.on_event(failed("not yet"));
    assert!(matches!(run.command(), Command::ScrollDown));
    run.on_event(Event::Succeeded);
    assert!(matches!(run.command(), Command::Reveal { .. }));
    run.on_event(Event::Succeeded);
    assert!(matches!(run.command(), Command::Tap));
    run.on_event(Event::Succeeded);
    assert_eq!(run.outcomes, vec![true]);
}

#[test]
fn disconnection_aborts_with_a_partial_report() {
    let mut run = start(vec![
        log("first"),
        AndroidNormalStep::ScreenshotStep { take_screenshot: "home".to_string() },
        log("never"),
    ]);
    match run.command() {
        Command::Screenshot { label } => assert_eq!(label, "home"),
        _ => panic!("expected a screenshot"),
    }
    run.on_event(Event::Disconnected);
    assert!(run.is_finished());
    assert!(matches!(run.command(), Command::Finished));
    let partial = run.finish(99).err().unwrap();
    assert_eq!(partial.steps_executed, 1);
    assert_eq!(partial.details, "log: first: passed\n");
    assert_eq!(partial.test_file, "suite.json");
    assert_eq!(partial.platform, "android");
}

fn play(reasons: &[&str]) -> Run {
    let mut run = start(vec![
        element("a", vec![AndroidAction::AssertVisible, AndroidAction::Pause(5)]),
        element("b", vec![AndroidAction::TapOn]),
        log("end"),
    ]);
    let mut k = 0;
    while !run.is_finished() {
        let ev = if k == 1 { failed(reasons[0]) } else if k == 2 { failed(reasons[1]) } else { Event::Succeeded };
        run.on_event(ev);
        k += 1;
    }
    run
}

#[test]
fn same_answers_give_same_outcomes() {
    let a = play(&["hidden", "gone"]);
    let b = play(&["off screen", "timeout"]);
    assert_eq!(a.outcomes, b.outcomes);
    assert_eq!(a.report.steps_executed, b.report.steps_executed);
    assert_eq!(a.outcomes, vec![false, false, true]);
    assert_ne!(a.report.details, b.report.details);
}

#[test]
fn element_step_without_actions_passes_once_found() {
    let mut run = start(vec![element("x", vec![])]);
    run.on_event(Event::Succeeded);
    assert_eq!(run.outcomes, vec![true]);
    assert_eq!(run.report.details, "element x: passed\n");
}

#[test]
fn report_starts_empty() {
    let r = TestReport::new("t.json".to_string(), "android".to_string());
    assert_eq!(r.test_file, "t.json");
    assert_eq!(r.platform, "android");
    assert_eq!(r.steps_executed, 0);
    assert_eq!(r.execution_time_ms, 0);
    assert_eq!(r.details, "");
    assert_eq!(r.steps_passed, 0);
    assert!(!r.complete);
}

#[test]
fn aborted_run_report_is_marked_partial() {
    let mut run = start(vec![log("first"), AndroidNormalStep::Pause { pause: 1 }, log("never")]);
    run.on_event(Event::Disconnected);
    let partial = run.finish(1500).err().unwrap();
    assert!(!partial.complete);
    assert_eq!(partial.steps_passed, 1);
    let md = partial.render_markdown("2024-05-06 07:08:09");
    assert!(md.contains(
        "⚠️ PARTIAL REPORT: the run was aborted before its end\n\nSteps executed before the abort: 1 (1 passed)"
    ));
    assert!(!md.contains("successfully"));
    assert!(!md.contains("✅"));
    assert!(md.contains("time: 1.50 seconds"));
}

#[test]
fn completed_run_report_counts_passed_steps() {
    let mut run = start(vec![element("gone", vec![AndroidAction::TapOn]), log("end")]);
    run.on_event(failed("no such element"));
    let report = run.finish(0).ok().unwrap();
    assert!(report.complete);
    assert_eq!(report.steps_executed, 2);
    assert_eq!(report.steps_passed, 1);
    assert!(report.render_markdown("d").contains("❌ Steps executed: 2 (1 passed)"));
}

#[test]
fn completed_run_with_every_step_passed_reads_successfully() {
    let mut r = TestReport::new("login.json".to_string(), "Android".to_string());
    r.record_step("a", true);
    r.record_step("b", true);
    r.record_step("c", true);
    r.details = "ok".to_string();
    r.execution_time_ms = 1500;
    r.complete = true;
    assert_eq!(
        r.render_markdown("2026-10-18 12:00:00"),
        "# Test suite report\n\n![LOGO](./assets/logo.webp)\n\nTest file: login.json\n\n\
         Platform: Android\n\n🕒 Date and time: 2026-10-18 12:00:00\n\n\
         ✅ Steps executed: 3 successfully\n\n⏱️ Total execution time: 1.50 seconds\n\n\
         ## Test Details\n\nok\n"
    );
}

#[test]
fn scroll_search_for_an_element_never_found_scrolls_then_fails() {
    let mut run = start(vec![
        element("far", vec![AndroidAction::ScrollUntilVisible, AndroidAction::TapOn]),
        log("after"),
    ]);
    let mut finds = 0;
    let mut scrolls = 0;
    while !run.is_finished() {
        match run.command() {
            Command::Find { .. } | Command::Reveal { .. } => {
                finds += 1;
                run.on_event(failed("no such element"))
            }
            Command::ScrollDown => {
                scrolls += 1;
                run.on_event(Event::Succeeded)
            }
            _ => panic!("no other command is expected"),
        }
        assert!(finds + scrolls <= 2 * MAX_SCROLLS + 1);
    }
    assert_eq!(scrolls, MAX_SCROLLS);
    assert_eq!(finds, MAX_SCROLLS + 1);
    assert_eq!(run.outcomes, vec![false, true]);
    assert_eq!(
        run.report.details,
        "element far: failed: action 1 scroll_until_visible: no such element\nlog: after: passed\n"
    );
    assert!(run.finish(0).is_ok());
}

#[test]
fn markdown_renders_every_field() {
    let mut r = TestReport::new("login.json".to_string(), "android".to_string());
    r.record_step("log: hi: passed", true);
    r.record_step("element x: failed: element not found: gone", false);
    r.execution_time_ms = 12345;
    r.complete = true;
    let md = r.render_markdown("2024-01-02 03:04:05");
    assert_eq!(
        md,
        "# Test suite report\n\n![LOGO](./assets/logo.webp)\n\nTest file: login.json\n\n\
         Platform: android\n\n🕒 Date and time: 2024-01-02 03:04:05\n\n\
         ❌ Steps executed: 2 (1 passed)\n\n⏱️ Total execution time: 12.35 seconds\n\n\
         ## Test Details\n\nlog: hi: passed\nelement x: failed: element not found: gone\n\n"
    );
}

#[test]
fn markdown_seconds_round_to_hundredths() {
    let mut r = TestReport::new("f".to_string(), "p".to_string());
    r.execution_time_ms = 4;
    assert!(r.render_markdown("d").contains("time: 0.00 seconds"));
    r.execution_time_ms = 5;
    assert!(r.render_markdown("d").contains("time: 0.01 seconds"));
    r.execution_time_ms = 999_995;
    assert!(r.render_markdown("d").contains("time: 1000.00 seconds"));
}

#[test]
fn generated_markdown_is_dated() {
    let r = TestReport::new("f.json".to_string(), "android".to_string());
    let md = r.generate_markdown();
    let date_line = md.lines().find(|l| l.contains("Date and time: ")).unwrap();
    let date = date_line.split("Date and time: ").nth(1).unwrap();
    assert_eq!(date.len(), 19);
    assert!(md.contains("Test file: f.json"));
}
