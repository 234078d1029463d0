use vstd::prelude::*;

use crate::reporting::TestReport;
use crate::selector::{
    android_query, decimal, push_decimal, selector_error, selector_query, selector_value,
    DriverQuery, SelectorError,
};
use crate::steps::{AndroidAction, AndroidElementSelector, AndroidNormalStep};

verus! {

/// How many scroll gestures a scroll search makes before it gives up.
pub const MAX_SCROLLS: u32 = 10;

/// What the driver is asked to do next.
pub enum Command {
    /// Locate the element of the current step.
    Find { query: DriverQuery },
    /// Succeed iff the located element is shown in the viewport.
    CheckVisible,
    /// Tap the located element.
    Tap,
    /// Locate the element again and succeed iff it is shown in the viewport.
    Reveal { query: DriverQuery },
    /// Scroll the nearest scrollable container one page further.
    ScrollDown,
    /// Type the text into the located element.
    EnterText { text: String },
    /// Wait for the given number of milliseconds.
    Sleep { ms: u64 },
    /// Capture the screen and store it under the label.
    Screenshot { label: String },
    /// Nothing is left to do: the run completed or was aborted.
    Finished,
}

/// What came of the last command.
pub enum Event {
    Succeeded,
    Failed { reason: String },
    /// The session can no longer be used: the run is aborted.
    Disconnected,
}

/// The state of a run, as contracts see it.
pub struct RunView {
    pub step: nat,
    pub action: nat,
    pub located: bool,
    pub scrolls: nat,
    pub scrolling: bool,
    pub aborted: bool,
    pub outcomes: Seq<bool>,
    /// How many recorded steps passed.
    pub passed: nat,
    pub details: Seq<char>,
}

pub open spec fn action_name(a: AndroidAction) -> Seq<char> {
    match a {
        AndroidAction::AssertVisible => "assert_visible"@,
        AndroidAction::TapOn => "tap_on"@,
        AndroidAction::ScrollUntilVisible => "scroll_until_visible"@,
        AndroidAction::InsertData { .. } => "insert_data"@,
        AndroidAction::Pause(_) => "pause"@,
    }
}

pub open spec fn selector_error_text(e: SelectorError) -> Seq<char> {
    match e {
        SelectorError::EmptyValue => "empty selector value"@,
        SelectorError::NegativeInstance => "negative instance index"@,
    }
}

/// What a narrative line says a step is.
pub open spec fn describe(s: AndroidNormalStep) -> Seq<char> {
    match s {
        AndroidNormalStep::AndroidElementStep { selector, .. } => "element "@ + selector_value(
            selector,
        ),
        AndroidNormalStep::ScreenshotStep { take_screenshot } => "screenshot "@ + take_screenshot@,
        AndroidNormalStep::LogStep { log } => "log: "@ + log@,
        AndroidNormalStep::Pause { pause } => "pause "@ + decimal(pause as nat) + " ms"@,
    }
}

/// The narrative line of a step that passed (`None`) or failed for the reason given.
pub open spec fn step_line(s: AndroidNormalStep, failure: Option<Seq<char>>) -> Seq<char> {
    match failure {
        None => describe(s) + ": passed"@,
        Some(d) => describe(s) + ": failed: "@ + d,
    }
}

/// Why an element step failed at its action of index `k`.
pub open spec fn action_failure(k: nat, a: AndroidAction, reason: Seq<char>) -> Seq<char> {
    "action "@ + decimal(k + 1) + " "@ + action_name(a) + ": "@ + reason
}

/// A step that the run settles without the driver: a log step, or an element
/// step whose selector is malformed.
pub open spec fn is_auto(s: AndroidNormalStep) -> bool {
    match s {
        AndroidNormalStep::LogStep { .. } => true,
        AndroidNormalStep::AndroidElementStep { selector, .. } => selector_error(selector) is Some,
        _ => false,
    }
}

/// Why a step that the run settles by itself failed, if it did.
pub open spec fn auto_failure(s: AndroidNormalStep) -> Option<Seq<char>> {
    match s {
        AndroidNormalStep::AndroidElementStep { selector, .. } => Some(
            selector_error_text(selector_error(selector)->Some_0),
        ),
        _ => None,
    }
}

/// `v` after the current step ended with the narrative line and outcome given.
pub open spec fn record(v: RunView, line: Seq<char>, passed: bool) -> RunView {
    RunView {
        step: v.step + 1,
        action: 0,
        located: false,
        scrolls: 0,
        scrolling: false,
        aborted: v.aborted,
        outcomes: v.outcomes.push(passed),
        passed: v.passed + if passed { 1nat } else { 0nat },
        details: v.details + line + "\n"@,
    }
}

/// `v` after every step that needs no driver, from the current one on, is recorded.
pub open spec fn settle(steps: Seq<AndroidNormalStep>, v: RunView) -> RunView
    decreases steps.len() - v.step,
{
    if v.step < steps.len() && is_auto(steps[v.step as int]) {
        let s = steps[v.step as int];
        settle(steps, record(v, step_line(s, auto_failure(s)), auto_failure(s) is None))
    } else {
        v
    }
}

/// The state at which a run of `steps` begins.
pub open spec fn initial(steps: Seq<AndroidNormalStep>) -> RunView {
    settle(
        steps,
        RunView {
            step: 0,
            action: 0,
            located: false,
            scrolls: 0,
            scrolling: false,
            aborted: false,
            outcomes: seq![],
            passed: 0,
            details: seq![],
        },
    )
}

pub open spec fn is_done(steps: Seq<AndroidNormalStep>, v: RunView) -> bool {
    v.aborted || v.step >= steps.len()
}

/// `v` after the last command succeeded, before settling.
pub open spec fn succeeded(steps: Seq<AndroidNormalStep>, v: RunView) -> RunView {
    let s = steps[v.step as int];
    match s {
        AndroidNormalStep::AndroidElementStep { actions, .. } => if !v.located {
            if actions@.len() == 0 {
                record(v, step_line(s, None), true)
            } else {
                RunView { located: true, action: 0, scrolls: 0, scrolling: false, ..v }
            }
        } else if v.scrolling {
            RunView { scrolling: false, scrolls: v.scrolls + 1, ..v }
        } else if v.action + 1 >= actions@.len() {
            record(v, step_line(s, None), true)
        } else {
            RunView { action: v.action + 1, scrolls: 0, ..v }
        },
        _ => record(v, step_line(s, None), true),
    }
}

/// `v` after the last command failed for `reason`, before settling.
pub open spec fn failed(steps: Seq<AndroidNormalStep>, v: RunView, reason: Seq<char>) -> RunView {
    let s = steps[v.step as int];
    match s {
        AndroidNormalStep::AndroidElementStep { actions, .. } => if !v.located {
            if actions@.len() > 0 && actions@[0] is ScrollUntilVisible && v.scrolls < MAX_SCROLLS {
                RunView { located: true, action: 0, scrolling: true, ..v }
            } else {
                record(v, step_line(s, Some("element not found: "@ + reason)), false)
            }
        } else {
            let a = actions@[v.action as int];
            if !v.scrolling && a is ScrollUntilVisible && v.scrolls < MAX_SCROLLS {
                RunView { scrolling: true, ..v }
            } else {
                record(v, step_line(s, Some(action_failure(v.action, a, reason))), false)
            }
        },
        _ => record(v, step_line(s, Some(reason)), false),
    }
}

/// The state of a run of `steps` after event `ev` in state `v`.
pub open spec fn after_event(steps: Seq<AndroidNormalStep>, v: RunView, ev: Event) -> RunView {
    if is_done(steps, v) {
        v
    } else {
        match ev {
            Event::Disconnected => RunView { aborted: true, ..v },
            Event::Succeeded => settle(steps, succeeded(steps, v)),
            Event::Failed { reason } => settle(steps, failed(steps, v, reason@)),
        }
    }
}

pub open spec fn query_is(q: DriverQuery, sel: AndroidElementSelector) -> bool {
    (q.kind, q.text@) == selector_query(sel)
}

/// `c` is the command that a run of `steps` in state `v` gives the driver.
pub open spec fn command_for(steps: Seq<AndroidNormalStep>, v: RunView, c: Command) -> bool {
    if is_done(steps, v) {
        c is Finished
    } else {
        match steps[v.step as int] {
            AndroidNormalStep::AndroidElementStep { selector, actions } => if !v.located {
                c matches Command::Find { query } && query_is(query, selector)
            } else if v.scrolling {
                c is ScrollDown
            } else {
                match actions@[v.action as int] {
                    AndroidAction::AssertVisible => c is CheckVisible,
                    AndroidAction::TapOn => c is Tap,
                    AndroidAction::ScrollUntilVisible => c matches Command::Reveal { query }
                        && query_is(query, selector),
                    AndroidAction::InsertData { data } => c matches Command::EnterText { text }
                        && text@ == data@,
                    AndroidAction::Pause(ms) => c matches Command::Sleep { ms: m } && m == ms,
                }
            },
            AndroidNormalStep::ScreenshotStep { take_screenshot } => c matches Command::Screenshot {
                label,
            } && label@ == take_screenshot@,
            AndroidNormalStep::Pause { pause } => c matches Command::Sleep { ms } && ms == pause,
            AndroidNormalStep::LogStep { .. } => c is Finished,
        }
    }
}

/// The states that a run can be in between events.
pub open spec fn view_wf(steps: Seq<AndroidNormalStep>, v: RunView) -> bool {
    &&& v.step <= steps.len()
    &&& v.outcomes.len() == v.step
    &&& v.passed <= v.step
    &&& v.scrolls <= MAX_SCROLLS
    &&& v.scrolling ==> v.scrolls < MAX_SCROLLS
    &&& !v.located ==> v.scrolls == 0
    &&& v.step < steps.len() ==> !is_auto(steps[v.step as int])
    &&& v.located ==> v.step < steps.len() && (steps[v.step as int] matches
        AndroidNormalStep::AndroidElementStep { actions, .. } && v.action < actions@.len())
    &&& v.scrolling ==> v.located && (steps[v.step as int] matches
        AndroidNormalStep::AndroidElementStep { actions, .. }
        && actions@[v.action as int] is ScrollUntilVisible)
}

fn selector_value_str(sel: &AndroidElementSelector) -> (r: &str)
    ensures
        r@ == selector_value(*sel),
{
    match sel {
        AndroidElementSelector::Text { text } => text.as_str(),
        AndroidElementSelector::Xpath { xpath } => xpath.as_str(),
        AndroidElementSelector::ClassName { class_name, .. } => class_name.as_str(),
        AndroidElementSelector::Id { id } => id.as_str(),
        AndroidElementSelector::IdWithIndex { id, .. } => id.as_str(),
        AndroidElementSelector::Description { description } => description.as_str(),
    }
}

fn push_describe(s: &mut String, step: &AndroidNormalStep)
    ensures
        final(s)@ == old(s)@ + describe(*step),
{
    match step {
        AndroidNormalStep::AndroidElementStep { selector, .. } => {
            s.append("element ");
            s.append(selector_value_str(selector));
        },
        AndroidNormalStep::ScreenshotStep { take_screenshot } => {
            s.append("screenshot ");
            s.append(take_screenshot.as_str());
        },
        AndroidNormalStep::LogStep { log } => {
            s.append("log: ");
            s.append(log.as_str());
        },
        AndroidNormalStep::Pause { pause } => {
            s.append("pause ");
            push_decimal(s, *pause);
            s.append(" ms");
        },
    }
    assert(s@ =~= old(s)@ + describe(*step));
}

fn action_name_str(a: &AndroidAction) -> (r: &'static str)
    ensures
        r@ == action_name(*a),
{
    match a {
        AndroidAction::AssertVisible => "assert_visible",
        AndroidAction::TapOn => "tap_on",
        AndroidAction::ScrollUntilVisible => "scroll_until_visible",
        AndroidAction::InsertData { .. } => "insert_data",
        AndroidAction::Pause(_) => "pause",
    }
}

fn selector_error_str(e: SelectorError) -> (r: &'static str)
    ensures
        r@ == selector_error_text(e),
{
    match e {
        SelectorError::EmptyValue => "empty selector value",
        SelectorError::NegativeInstance => "negative instance index",
    }
}

/// The narrative line of `step`: passed when `failure` is `None`.
fn make_line(step: &AndroidNormalStep, failure: Option<&str>) -> (r: String)
    ensures
        r@ == step_line(*step, match failure {
            None => None,
            Some(d) => Some(d@),
        }),
{
    let mut s = String::new();
    push_describe(&mut s, step);
    match failure {
        None => s.append(": passed"),
        Some(d) => {
            s.append(": failed: ");
            s.append(d);
        },
    }
    s
}

/// A run of a flattened script against one driver session.
pub struct Run {
    pub steps: Vec<AndroidNormalStep>,
    pub report: TestReport,
    /// Whether each step that ended passed, in order.
    pub outcomes: Vec<bool>,
    pub step: usize,
    pub action: usize,
    pub located: bool,
    pub scrolls: u32,
    pub scrolling: bool,
    pub aborted: bool,
}

impl View for Run {
    type V = RunView;

    open spec fn view(&self) -> RunView {
        RunView {
            step: self.step as nat,
            action: self.action as nat,
            located: self.located,
            scrolls: self.scrolls as nat,
            scrolling: self.scrolling,
            aborted: self.aborted,
            outcomes: self.outcomes@,
            passed: self.report.steps_passed as nat,
            details: self.report.details@,
        }
    }
}

impl Run {
    pub open spec fn wf(&self) -> bool {
        &&& view_wf(self.steps@, self@)
        &&& self.report.steps_executed == self.step
    }

    /// The report's fields that a run never changes.
    pub open spec fn same_frame(&self, other: &Run) -> bool {
        &&& self.steps@ == other.steps@
        &&& self.report.test_file == other.report.test_file
        &&& self.report.platform == other.report.platform
        &&& self.report.execution_time_ms == other.report.execution_time_ms
        &&& self.report.complete == other.report.complete
    }

    fn record_step(&mut self, line: &str, passed: bool)
        requires
            old(self).step < old(self).steps@.len(),
            old(self).report.steps_executed == old(self).step,
            old(self).report.steps_passed <= old(self).step,
        ensures
            final(self)@ == record(old(self)@, line@, passed),
            final(self).same_frame(old(self)),
            final(self).report.steps_executed == final(self).step,
            final(self).report.steps_passed <= final(self).step,
    {
        // Reading the length tells the prover that it fits in a usize, so the
        // step count, which is below it, cannot overflow.
        let _len = self.steps.len();
        self.report.record_step(line, passed);
        self.outcomes.push(passed);
        self.step = self.step + 1;
        self.action = 0;
        self.located = false;
        self.scrolls = 0;
        self.scrolling = false;
    }

    /// Records every step from the current one on that needs no driver.
    fn settle(&mut self)
        requires
            old(self).step <= old(self).steps@.len(),
            old(self).outcomes@.len() == old(self).step,
            old(self).report.steps_executed == old(self).step,
            old(self).report.steps_passed <= old(self).step,
            old(self).scrolls <= MAX_SCROLLS,
            old(self).scrolling ==> old(self).scrolls < MAX_SCROLLS,
            !old(self).located ==> old(self).scrolls == 0,
            old(self).located ==> old(self).step < old(self).steps@.len() && (
            old(self).steps@[old(self).step as int] matches
                AndroidNormalStep::AndroidElementStep { actions, .. } && old(self).action
                < actions@.len()),
            old(self).scrolling ==> old(self).located && (
            old(self).steps@[old(self).step as int] matches
                AndroidNormalStep::AndroidElementStep { actions, .. }
                && actions@[old(self).action as int] is ScrollUntilVisible),
            old(self).located ==> !is_auto(old(self).steps@[old(self).step as int]),
        ensures
            final(self)@ == settle(old(self).steps@, old(self)@),
            final(self).same_frame(old(self)),
            final(self).wf(),
    {
        while self.step < self.steps.len() && self.current_auto()
            invariant
                settle(self.steps@, self@) == settle(old(self).steps@, old(self)@),
                self.same_frame(old(self)),
                self.step <= self.steps@.len(),
                self.outcomes@.len() == self.step,
                self.report.steps_executed == self.step,
                self.report.steps_passed <= self.step,
                self.scrolls <= MAX_SCROLLS,
                self.scrolling ==> self.scrolls < MAX_SCROLLS,
                !self.located ==> self.scrolls == 0,
                self.located ==> self.step < self.steps@.len() && (
                self.steps@[self.step as int] matches
                    AndroidNormalStep::AndroidElementStep { actions, .. } && self.action
                    < actions@.len()),
                self.scrolling ==> self.located && (self.steps@[self.step as int] matches
                    AndroidNormalStep::AndroidElementStep { actions, .. }
                    && actions@[self.action as int] is ScrollUntilVisible),
                self.located ==> !is_auto(self.steps@[self.step as int]),
            decreases self.steps@.len() - self.step,
        {
            let i = self.step;
            match &self.steps[i] {
                AndroidNormalStep::AndroidElementStep { selector, .. } => {
                    let e = match android_query(selector) {
                        Err(e) => e,
                        Ok(_) => SelectorError::EmptyValue,
                    };
                    let line = make_line(&self.steps[i], Some(selector_error_str(e)));
                    self.record_step(line.as_str(), false);
                },
                _ => {
                    let line = make_line(&self.steps[i], None);
                    self.record_step(line.as_str(), true);
                },
            }
        }
    }

    fn current_auto(&self) -> (r: bool)
        requires
            self.step < self.steps@.len(),
        ensures
            r == is_auto(self.steps@[self.step as int]),
    {
        match &self.steps[self.step] {
            AndroidNormalStep::LogStep { .. } => true,
            AndroidNormalStep::AndroidElementStep { selector, .. } => android_query(selector).is_err(),
            _ => false,
        }
    }

    /// Begins a run of `steps`, reported under the file and platform given;
    /// the steps that need no driver at its start are already recorded.
    pub fn start(steps: Vec<AndroidNormalStep>, test_file: String, platform: String) -> (r: Run)
        ensures
            r.wf(),
            r.steps@ == steps@,
            r@ == initial(steps@),
            r.report.test_file == test_file,
            r.report.platform == platform,
            r.report.execution_time_ms == 0,
            !r.report.complete,
    {
        let mut r = Run {
            steps,
            report: TestReport::new(test_file, platform),
            outcomes: Vec::new(),
            step: 0,
            action: 0,
            located: false,
            scrolls: 0,
            scrolling: false,
            aborted: false,
        };
        proof {
            assert(r@ =~= RunView {
                step: 0,
                action: 0,
                located: false,
                scrolls: 0,
                scrolling: false,
                aborted: false,
                outcomes: seq![],
                passed: 0,
                details: seq![],
            });
        }
        r.settle();
        r
    }

    /// The command that the driver is to perform next.
    pub fn command(&self) -> (c: Command)
        requires
            self.wf(),
        ensures
            command_for(self.steps@, self@, c),
    {
        if self.aborted || self.step >= self.steps.len() {
            return Command::Finished;
        }
        match &self.steps[self.step] {
            AndroidNormalStep::AndroidElementStep { selector, actions } => {
                if !self.located || self.scrolling {
                    if self.scrolling {
                        return Command::ScrollDown;
                    }
                    match android_query(selector) {
                        Ok(query) => Command::Find { query },
                        Err(_) => Command::Finished,
                    }
                } else {
                    match &actions[self.action] {
                        AndroidAction::AssertVisible => Command::CheckVisible,
                        AndroidAction::TapOn => Command::Tap,
                        AndroidAction::ScrollUntilVisible => match android_query(selector) {
                            Ok(query) => Command::Reveal { query },
                            Err(_) => Command::Finished,
                        },
                        AndroidAction::InsertData { data } => Command::EnterText {
                            text: data.clone(),
                        },
                        AndroidAction::Pause(ms) => Command::Sleep { ms: *ms },
                    }
                }
            },
            AndroidNormalStep::ScreenshotStep { take_screenshot } => Command::Screenshot {
                label: take_screenshot.clone(),
            },
            AndroidNormalStep::Pause { pause } => Command::Sleep { ms: *pause },
            AndroidNormalStep::LogStep { .. } => Command::Finished,
        }
    }

    /// Takes in what came of the last command and moves the run on.
    pub fn on_event(&mut self, ev: Event)
        requires
            old(self).wf(),
        ensures
            final(self).wf(),
            final(self).same_frame(old(self)),
            final(self)@ == after_event(old(self).steps@, old(self)@, ev),
    {
        if self.aborted || self.step >= self.steps.len() {
            return;
        }
        let i = self.step;
        match ev {
            Event::Disconnected => {
                self.aborted = true;
            },
            Event::Succeeded => {
                let mut line: Option<String> = None;
                match &self.steps[i] {
                    AndroidNormalStep::AndroidElementStep { actions, .. } => {
                        let n = actions.len();
                        if !self.located {
                            if n == 0 {
                                line = Some(make_line(&self.steps[i], None));
                            } else {
                                self.located = true;
                                self.action = 0;
                                self.scrolls = 0;
                                self.scrolling = false;
                            }
                        } else if self.scrolling {
                            self.scrolling = false;
                            self.scrolls = self.scrolls + 1;
                        } else if self.action + 1 >= n {
                            line = Some(make_line(&self.steps[i], None));
                        } else {
                            self.action = self.action + 1;
                            self.scrolls = 0;
                        }
                    },
                    _ => {
                        line = Some(make_line(&self.steps[i], None));
                    },
                }
                match line {
                    Some(l) => self.record_step(l.as_str(), true),
                    None => {},
                }
                self.settle();
            },
            Event::Failed { reason } => {
                let mut line: Option<String> = None;
                match &self.steps[i] {
                    AndroidNormalStep::AndroidElementStep { actions, .. } => {
                        let starts_with_scroll = actions.len() > 0 && match &actions[0] {
                            AndroidAction::ScrollUntilVisible => true,
                            _ => false,
                        };
                        if !self.located && starts_with_scroll && self.scrolls < MAX_SCROLLS {
                            self.located = true;
                            self.action = 0;
                            self.scrolling = true;
                        } else if !self.located {
                            let mut d = String::new();
                            d.append("element not found: ");
                            d.append(reason.as_str());
                            line = Some(make_line(&self.steps[i], Some(d.as_str())));
                        } else {
                            let n = actions.len();
                            let a = &actions[self.action];
                            let is_scroll = match a {
                                AndroidAction::ScrollUntilVisible => true,
                                _ => false,
                            };
                            if !self.scrolling && is_scroll && self.scrolls < MAX_SCROLLS {
                                self.scrolling = true;
                            } else {
                                let mut d = String::new();
                                d.append("action ");
                                let k: usize = self.action + 1;
                                push_decimal(&mut d, k as u64);
                                d.append(" ");
                                d.append(action_name_str(a));
                                d.append(": ");
                                d.append(reason.as_str());
                                proof {
                                    assert(d@ =~= action_failure(self.action as nat, *a, reason@));
                                }
                                line = Some(make_line(&self.steps[i], Some(d.as_str())));
                            }
                        }
                    },
                    _ => {
                        line = Some(make_line(&self.steps[i], Some(reason.as_str())));
                    },
                }
                match line {
                    Some(l) => self.record_step(l.as_str(), false),
                    None => {},
                }
                self.settle();
            },
        }
    }

    /// Ends the run, stamping the report with the time it took: `Ok` with the
    /// report once every step ran, `Err` with the partial report when the run
    /// was aborted or stopped before its end.
    pub fn finish(self, elapsed_ms: u64) -> (r: Result<TestReport, TestReport>)
        ensures
            r is Ok <==> !self.aborted && self.step >= self.steps@.len(),
            match r {
                Ok(t) => t.details == self.report.details,
                Err(t) => t.details == self.report.details,
            },
            match r {
                Ok(t) => t.steps_executed == self.report.steps_executed,
                Err(t) => t.steps_executed == self.report.steps_executed,
            },
            match r {
                Ok(t) => t.steps_passed == self.report.steps_passed && t.complete,
                Err(t) => t.steps_passed == self.report.steps_passed && !t.complete,
            },
            match r {
                Ok(t) => t.execution_time_ms == elapsed_ms,
                Err(t) => t.execution_time_ms == elapsed_ms,
            },
            match r {
                Ok(t) => t.test_file == self.report.test_file && t.platform == self.report.platform,
                Err(t) => t.test_file == self.report.test_file && t.platform == self.report.platform,
            },
    {
        let complete = !self.aborted && self.step >= self.steps.len();
        let mut report = self.report;
        report.execution_time_ms = elapsed_ms;
        report.complete = complete;
        if complete {
            Ok(report)
        } else {
            Err(report)
        }
    }

    /// Whether the run has nothing left to do.
    pub fn is_finished(&self) -> (r: bool)
        ensures
            r == is_done(self.steps@, self@),
    {
        self.aborted || self.step >= self.steps.len()
    }
}

} // verus!

verus! {

/// Settling only adds outcomes and narrative after those already there.
proof fn lemma_settle_extends(steps: Seq<AndroidNormalStep>, v: RunView)
    ensures
        settle(steps, v).outcomes.len() >= v.outcomes.len(),
        settle(steps, v).outcomes.subrange(0, v.outcomes.len() as int) == v.outcomes,
        settle(steps, v).details.len() >= v.details.len(),
        settle(steps, v).details.subrange(0, v.details.len() as int) == v.details,
        settle(steps, v).aborted == v.aborted,
        settle(steps, v).step >= v.step,
        v.step < steps.len() && !is_auto(steps[v.step as int]) ==> settle(steps, v) == v,
    decreases steps.len() - v.step,
{
    if v.step < steps.len() && is_auto(steps[v.step as int]) {
        let s = steps[v.step as int];
        let w = record(v, step_line(s, auto_failure(s)), auto_failure(s) is None);
        lemma_settle_extends(steps, w);
        assert(w.outcomes.subrange(0, v.outcomes.len() as int) =~= v.outcomes);
        assert(w.details.subrange(0, v.details.len() as int) =~= v.details);
        let z = settle(steps, w);
        assert(z.outcomes.subrange(0, v.outcomes.len() as int) =~= z.outcomes.subrange(
            0,
            w.outcomes.len() as int,
        ).subrange(0, v.outcomes.len() as int));
        assert(z.details.subrange(0, v.details.len() as int) =~= z.details.subrange(
            0,
            w.details.len() as int,
        ).subrange(0, v.details.len() as int));
    }
}

/// From step `v.step` on, a script of log steps only is recorded to its end,
/// each log step as passed.
proof fn lemma_settle_logs(steps: Seq<AndroidNormalStep>, v: RunView)
    requires
        v.step <= steps.len(),
        v.outcomes.len() == v.step,
        forall|i: int| 0 <= i < steps.len() ==> #[trigger] steps[i] is LogStep,
    ensures
        settle(steps, v).step == steps.len(),
        settle(steps, v).outcomes.len() == steps.len(),
        forall|i: int|
            v.step <= i < steps.len() ==> #[trigger] settle(steps, v).outcomes[i],
        settle(steps, v).aborted == v.aborted,
    decreases steps.len() - v.step,
{
    if v.step < steps.len() {
        let s = steps[v.step as int];
        let w = record(v, step_line(s, auto_failure(s)), auto_failure(s) is None);
        lemma_settle_logs(steps, w);
        lemma_settle_extends(steps, w);
        let z = settle(steps, w);
        assert(z.outcomes[v.step as int] == z.outcomes.subrange(0, w.outcomes.len() as int)[v.step as int]);
    }
}

/// A script of log steps only is run to its end before the driver is given any
/// command: the first command is `Finished`, every step is counted, and every
/// step passed.
pub proof fn lemma_logs_need_no_driver(steps: Seq<AndroidNormalStep>, c: Command)
    requires
        forall|i: int| 0 <= i < steps.len() ==> #[trigger] steps[i] is LogStep,
        command_for(steps, initial(steps), c),
    ensures
        c is Finished,
        initial(steps).step == steps.len(),
        initial(steps).outcomes.len() == steps.len(),
        forall|i: int| 0 <= i < steps.len() ==> #[trigger] initial(steps).outcomes[i],
        !initial(steps).aborted,
{
    let v0 = RunView {
        step: 0,
        action: 0,
        located: false,
        scrolls: 0,
        scrolling: false,
        aborted: false,
        outcomes: seq![],
        passed: 0,
        details: seq![],
    };
    lemma_settle_logs(steps, v0);
}

/// The element step being run.
pub open spec fn current_actions(steps: Seq<AndroidNormalStep>, v: RunView) -> Seq<AndroidAction> {
    match steps[v.step as int] {
        AndroidNormalStep::AndroidElementStep { actions, .. } => actions@,
        _ => seq![],
    }
}

/// What is left of a scroll search: two events per scroll not yet made, one
/// more while no scroll is pending.
pub open spec fn scroll_budget(v: RunView) -> nat {
    (2 * (MAX_SCROLLS - v.scrolls) + if v.scrolling { 0int } else { 1int }) as nat
}

/// A scroll search is bounded: in it, each event aborts the run, ends the step,
/// moves on to the next action, or uses up part of the scroll budget; and a
/// search that fails with the budget used up records the step as failed.
pub proof fn lemma_scroll_search_bounded(steps: Seq<AndroidNormalStep>, v: RunView, ev: Event)
    requires
        view_wf(steps, v),
        !is_done(steps, v),
        v.located,
        current_actions(steps, v)[v.action as int] is ScrollUntilVisible,
    ensures
        ({
            let w = after_event(steps, v, ev);
            ||| w.aborted
            ||| w.step > v.step
            ||| w.step == v.step && w.action > v.action
            ||| w.step == v.step && w.action == v.action && w.located && scroll_budget(w)
                < scroll_budget(v)
        }),
        ev is Failed && !v.scrolling && v.scrolls == MAX_SCROLLS ==> {
            let w = after_event(steps, v, ev);
            &&& w.step > v.step
            &&& w.outcomes[v.step as int] == false
        },
{
    let actions = current_actions(steps, v);
    assert(steps[v.step as int] matches AndroidNormalStep::AndroidElementStep { .. });
    match ev {
        Event::Disconnected => {},
        Event::Succeeded => {
            let u = succeeded(steps, v);
            lemma_settle_extends(steps, u);
            if u.step == v.step {
                assert(!is_auto(steps[u.step as int]));
            }
        },
        Event::Failed { reason } => {
            let u = failed(steps, v, reason@);
            lemma_settle_extends(steps, u);
            if !v.scrolling && v.scrolls < MAX_SCROLLS {
                assert(u == RunView { scrolling: true, ..v });
                assert(!is_auto(steps[u.step as int]));
                assert(settle(steps, u) == u);
            } else {
                assert(u.step == v.step + 1);
                assert(u.outcomes == v.outcomes.push(false));
                let z = settle(steps, u);
                assert(z.outcomes[v.step as int] == z.outcomes.subrange(0, u.outcomes.len() as int)[v.step as int]);
            }
        },
    }
}

/// An element step whose first action is a scroll search does not fail when
/// its element is not found: the failed lookup starts the search, which then
/// runs within the bound that `lemma_scroll_search_bounded` states.
pub proof fn lemma_missing_element_starts_scroll(
    steps: Seq<AndroidNormalStep>,
    v: RunView,
    reason: String,
)
    requires
        view_wf(steps, v),
        !is_done(steps, v),
        !v.located,
        steps[v.step as int] is AndroidElementStep,
        current_actions(steps, v).len() > 0,
        current_actions(steps, v)[0] is ScrollUntilVisible,
    ensures
        ({
            let w = after_event(steps, v, Event::Failed { reason });
            &&& w.step == v.step
            &&& w.located
            &&& w.action == 0
            &&& w.scrolling
            &&& w.scrolls == 0
            &&& w.outcomes == v.outcomes
        }),
{
    let u = failed(steps, v, reason@);
    assert(u == RunView { located: true, action: 0, scrolling: true, ..v });
    assert(!is_auto(steps[u.step as int]));
    lemma_settle_extends(steps, u);
}

/// An element step whose action `k` fails (other than a scroll search that may
/// still scroll) is recorded as failed, and its narrative line names action
/// `k` and the reason.
pub proof fn lemma_failed_action_cited(
    steps: Seq<AndroidNormalStep>,
    v: RunView,
    reason: String,
)
    requires
        view_wf(steps, v),
        !is_done(steps, v),
        v.located,
        !v.scrolling,
        !(current_actions(steps, v)[v.action as int] is ScrollUntilVisible),
    ensures
        ({
            let w = after_event(steps, v, Event::Failed { reason });
            let line = step_line(
                steps[v.step as int],
                Some(action_failure(v.action, current_actions(steps, v)[v.action as int], reason@)),
            );
            &&& w.outcomes.len() > v.step
            &&& w.outcomes[v.step as int] == false
            &&& w.details.len() >= v.details.len() + line.len() + 1
            &&& w.details.subrange(0, (v.details.len() + line.len() + 1) as int) == v.details + line + "\n"@
        }),
{
    let u = failed(steps, v, reason@);
    let line = step_line(
        steps[v.step as int],
        Some(action_failure(v.action, current_actions(steps, v)[v.action as int], reason@)),
    );
    assert(steps[v.step as int] matches AndroidNormalStep::AndroidElementStep { .. });
    assert(u == record(v, line, false));
    lemma_settle_extends(steps, u);
    let z = settle(steps, u);
    assert(z.outcomes[v.step as int] == z.outcomes.subrange(0, u.outcomes.len() as int)[v.step as int]);
    assert(u.details == v.details + line + "\n"@);
    reveal_strlit("\n");
    assert(u.details.len() == v.details.len() + line.len() + 1);
    assert(after_event(steps, v, Event::Failed { reason }) == z);
}

/// Both events are successes, both failures, or both disconnections.
pub open spec fn same_kind(a: Event, b: Event) -> bool {
    ||| a is Succeeded && b is Succeeded
    ||| a is Failed && b is Failed
    ||| a is Disconnected && b is Disconnected
}

/// The state without its narrative.
pub open spec fn control(v: RunView) -> RunView {
    RunView { details: seq![], ..v }
}

/// The state of a run of `steps` after the events `evs`, in order, from `v`.
pub open spec fn run_events(steps: Seq<AndroidNormalStep>, v: RunView, evs: Seq<Event>) -> RunView
    decreases evs.len(),
{
    if evs.len() == 0 {
        v
    } else {
        run_events(steps, after_event(steps, v, evs[0]), evs.drop_first())
    }
}

proof fn lemma_settle_control(steps: Seq<AndroidNormalStep>, a: RunView, b: RunView)
    requires
        control(a) == control(b),
    ensures
        control(settle(steps, a)) == control(settle(steps, b)),
    decreases steps.len() - a.step,
{
    if a.step < steps.len() && is_auto(steps[a.step as int]) {
        let s = steps[a.step as int];
        let a2 = record(a, step_line(s, auto_failure(s)), auto_failure(s) is None);
        let b2 = record(b, step_line(s, auto_failure(s)), auto_failure(s) is None);
        assert(control(a2) == control(b2));
        lemma_settle_control(steps, a2, b2);
    }
}

proof fn lemma_event_control(steps: Seq<AndroidNormalStep>, a: RunView, b: RunView, ea: Event, eb: Event)
    requires
        control(a) == control(b),
        same_kind(ea, eb),
    ensures
        control(after_event(steps, a, ea)) == control(after_event(steps, b, eb)),
{
    if !is_done(steps, a) {
        match ea {
            Event::Disconnected => {},
            Event::Succeeded => {
                assert(control(succeeded(steps, a)) == control(succeeded(steps, b)));
                lemma_settle_control(steps, succeeded(steps, a), succeeded(steps, b));
            },
            Event::Failed { reason: ra } => {
                let rb = eb->reason;
                assert(control(failed(steps, a, ra@)) == control(failed(steps, b, rb@)));
                lemma_settle_control(steps, failed(steps, a, ra@), failed(steps, b, rb@));
            },
        }
    }
}

proof fn lemma_run_control(
    steps: Seq<AndroidNormalStep>,
    a: RunView,
    b: RunView,
    ea: Seq<Event>,
    eb: Seq<Event>,
)
    requires
        control(a) == control(b),
        ea.len() == eb.len(),
        forall|i: int| 0 <= i < ea.len() ==> same_kind(#[trigger] ea[i], eb[i]),
    ensures
        control(run_events(steps, a, ea)) == control(run_events(steps, b, eb)),
    decreases ea.len(),
{
    if ea.len() > 0 {
        lemma_event_control(steps, a, b, ea[0], eb[0]);
        assert forall|i: int| 0 <= i < ea.drop_first().len() implies same_kind(
            #[trigger] ea.drop_first()[i],
            eb.drop_first()[i],
        ) by {
            assert(same_kind(ea[i + 1], eb[i + 1]));
        }
        lemma_run_control(
            steps,
            after_event(steps, a, ea[0]),
            after_event(steps, b, eb[0]),
            ea.drop_first(),
            eb.drop_first(),
        );
    }
}

/// Two runs of one script whose sessions answer each command with the same
/// kind of event (the failure reasons may differ) end alike: the same number
/// of steps run, the same outcome for each, and the same abort state.
pub proof fn lemma_runs_agree(steps: Seq<AndroidNormalStep>, ea: Seq<Event>, eb: Seq<Event>)
    requires
        ea.len() == eb.len(),
        forall|i: int| 0 <= i < ea.len() ==> same_kind(#[trigger] ea[i], eb[i]),
    ensures
        run_events(steps, initial(steps), ea).step == run_events(steps, initial(steps), eb).step,
        run_events(steps, initial(steps), ea).outcomes == run_events(
            steps,
            initial(steps),
            eb,
        ).outcomes,
        run_events(steps, initial(steps), ea).aborted == run_events(
            steps,
            initial(steps),
            eb,
        ).aborted,
{
    lemma_run_control(steps, initial(steps), initial(steps), ea, eb);
    let x = run_events(steps, initial(steps), ea);
    let y = run_events(steps, initial(steps), eb);
    assert(control(x).outcomes == control(y).outcomes);
}

/// A session in which the element is never found: every lookup fails for
/// `reason`, and every scroll goes through.
pub open spec fn never_found_answer(v: RunView, reason: String) -> Event {
    if v.scrolling {
        Event::Succeeded
    } else {
        Event::Failed { reason }
    }
}

/// The state after `n` answers of such a session, from `v`.
pub open spec fn never_found_run(steps: Seq<AndroidNormalStep>, v: RunView, reason: String, n: nat) -> RunView
    decreases n,
{
    if n == 0 {
        v
    } else {
        never_found_run(steps, after_event(steps, v, never_found_answer(v, reason)), reason, (n - 1) as nat)
    }
}

proof fn lemma_never_found_from_scroll(
    steps: Seq<AndroidNormalStep>,
    v: RunView,
    reason: String,
    j: nat,
)
    requires
        view_wf(steps, v),
        !is_done(steps, v),
        v.located,
        !v.scrolling,
        v.action == 0,
        v.scrolls == j,
        steps[v.step as int] is AndroidElementStep,
        current_actions(steps, v)[0] is ScrollUntilVisible,
    ensures
        ({
            let w = never_found_run(steps, v, reason, (2 * (MAX_SCROLLS - j) + 1) as nat);
            &&& w.step > v.step
            &&& w.outcomes.len() > v.step
            &&& w.outcomes[v.step as int] == false
        }),
    decreases MAX_SCROLLS - j,
{
    let n = (2 * (MAX_SCROLLS - j) + 1) as nat;
    let u = after_event(steps, v, Event::Failed { reason });
    let f = failed(steps, v, reason@);
    lemma_settle_extends(steps, f);
    if j == MAX_SCROLLS {
        assert(f.step == v.step + 1);
        assert(f.outcomes == v.outcomes.push(false));
        assert(u.outcomes[v.step as int] == u.outcomes.subrange(0, f.outcomes.len() as int)[v.step as int]);
        assert(never_found_run(steps, u, reason, 0) == u);
    } else {
        assert(f == RunView { scrolling: true, ..v });
        assert(!is_auto(steps[f.step as int]));
        assert(u == f);
        let g = succeeded(steps, u);
        assert(g == RunView { scrolling: false, scrolls: u.scrolls + 1, ..u });
        lemma_settle_extends(steps, g);
        let x = after_event(steps, u, Event::Succeeded);
        assert(x == g);
        assert(never_found_run(steps, v, reason, n) == never_found_run(steps, u, reason, (n - 1) as nat));
        assert(never_found_run(steps, u, reason, (n - 1) as nat) == never_found_run(
            steps,
            x,
            reason,
            (n - 2) as nat,
        ));
        lemma_never_found_from_scroll(steps, x, reason, j + 1);
    }
}

/// A scroll search for an element that is never found ends: from the start of
/// an element step whose first action is a scroll search, a session that fails
/// every lookup and performs every scroll sees the step end, recorded as
/// failed, after exactly `2 * MAX_SCROLLS + 1` answers. These are
/// `MAX_SCROLLS + 1` lookups and `MAX_SCROLLS` scrolls; the run is not aborted.
pub proof fn lemma_never_found_search_ends(steps: Seq<AndroidNormalStep>, v: RunView, reason: String)
    requires
        view_wf(steps, v),
        !is_done(steps, v),
        !v.located,
        steps[v.step as int] is AndroidElementStep,
        current_actions(steps, v).len() > 0,
        current_actions(steps, v)[0] is ScrollUntilVisible,
    ensures
        ({
            let w = never_found_run(steps, v, reason, (2 * MAX_SCROLLS + 1) as nat);
            &&& w.step > v.step
            &&& w.outcomes.len() > v.step
            &&& w.outcomes[v.step as int] == false
        }),
{
    let n = (2 * MAX_SCROLLS + 1) as nat;
    lemma_missing_element_starts_scroll(steps, v, reason);
    let u = after_event(steps, v, Event::Failed { reason });
    let g = succeeded(steps, u);
    assert(g == RunView { scrolling: false, scrolls: 1, ..u });
    lemma_settle_extends(steps, g);
    let x = after_event(steps, u, Event::Succeeded);
    assert(x == g);
    assert(never_found_run(steps, v, reason, n) == never_found_run(steps, u, reason, (n - 1) as nat));
    assert(never_found_run(steps, u, reason, (n - 1) as nat) == never_found_run(
        steps,
        x,
        reason,
        (n - 2) as nat,
    ));
    lemma_never_found_from_scroll(steps, x, reason, 1);
}

} // verus!
