use vstd::prelude::*;

use chrono::Local;

use crate::selector::{decimal, digit_char, push_decimal};

verus! {

/// The record of one run: which script ran on which platform, how many steps
/// ran, how long the run took and one narrative line per step.
pub struct TestReport {
    pub test_file: String,
    pub platform: String,
    pub steps_executed: usize,
    /// How many of the executed steps passed.
    pub steps_passed: usize,
    /// Whether the run went through every step; a report of a run that was
    /// aborted, or not finished, is partial.
    pub complete: bool,
    /// Total run time in milliseconds.
    pub execution_time_ms: u64,
    pub details: String,
}

/// `ms` milliseconds as seconds, rounded half up to two decimals: `12.35`.
pub open spec fn seconds_text(ms: nat) -> Seq<char> {
    let h = ms / 10 + if ms % 10 >= 5 { 1nat } else { 0nat };
    decimal(h / 100) + "."@ + seq![digit_char((h % 100) / 10), digit_char(h % 10)]
}

/// The line that says how many steps ran, and whether the run completed: a
/// completed run whose steps all passed ran them "successfully"; one with a
/// failed step says how many passed; a run that did not complete is marked
/// partial.
pub open spec fn status_text(r: TestReport) -> Seq<char> {
    let counts = decimal(r.steps_executed as nat) + " ("@ + decimal(r.steps_passed as nat)
        + " passed)"@;
    if r.complete && r.steps_passed == r.steps_executed {
        "✅ Steps executed: "@ + decimal(r.steps_executed as nat) + " successfully"@
    } else if r.complete {
        "❌ Steps executed: "@ + counts
    } else {
        "⚠️ PARTIAL REPORT: the run was aborted before its end\n\nSteps executed before the abort: "@
            + counts
    }
}

/// The markdown document for `r`, dated `date`.
pub open spec fn markdown(r: TestReport, date: Seq<char>) -> Seq<char> {
    "# Test suite report\n\n![LOGO](./assets/logo.webp)\n\nTest file: "@ + r.test_file@
        + "\n\nPlatform: "@ + r.platform@ + "\n\n🕒 Date and time: "@ + date
        + "\n\n"@ + status_text(r) + "\n\n⏱️ Total execution time: "@ + seconds_text(
        r.execution_time_ms as nat,
    ) + " seconds\n\n## Test Details\n\n"@ + r.details@ + "\n"@
}

/// Relies on chrono's `Local::now` and `DateTime::format`: the local date and
/// time as text; it depends on the clock, so nothing is stated of it.
#[verifier::external_body]
fn local_timestamp() -> (r: String) {
    Local::now().format("%Y-%m-%d %H:%M:%S").to_string()
}

impl TestReport {
    /// An empty report: no step run, no time spent, no narrative.
    pub fn new(test_file: String, platform: String) -> (r: Self)
        ensures
            r.test_file == test_file,
            r.platform == platform,
            r.steps_executed == 0,
            r.steps_passed == 0,
            !r.complete,
            r.execution_time_ms == 0,
            r.details@ == Seq::<char>::empty(),
    {
        TestReport {
            test_file,
            platform,
            steps_executed: 0,
            steps_passed: 0,
            complete: false,
            execution_time_ms: 0,
            details: String::new(),
        }
    }

    /// Appends the status line of the report to `s`.
    fn push_status(&self, s: &mut String)
        ensures
            final(s)@ == old(s)@ + status_text(*self),
    {
        if self.complete && self.steps_passed == self.steps_executed {
            s.append("✅ Steps executed: ");
            push_decimal(s, self.steps_executed as u64);
            s.append(" successfully");
        } else {
            if self.complete {
                s.append("❌ Steps executed: ");
            } else {
                s.append("⚠️ PARTIAL REPORT: the run was aborted before its end\n\nSteps executed before the abort: ");
            }
            push_decimal(s, self.steps_executed as u64);
            s.append(" (");
            push_decimal(s, self.steps_passed as u64);
            s.append(" passed)");
        }
        proof {
            assert(s@ =~= old(s)@ + status_text(*self));
        }
    }

    /// The report as a markdown document dated `date`.
    pub fn render_markdown(&self, date: &str) -> (r: String)
        ensures
            r@ == markdown(*self, date@),
    {
        let mut s = String::new();
        s.append("# Test suite report\n\n![LOGO](./assets/logo.webp)\n\nTest file: ");
        s.append(self.test_file.as_str());
        s.append("\n\nPlatform: ");
        s.append(self.platform.as_str());
        s.append("\n\n🕒 Date and time: ");
        s.append(date);
        s.append("\n\n");
        self.push_status(&mut s);
        s.append("\n\n⏱️ Total execution time: ");
        let ms = self.execution_time_ms;
        let h: u64 = ms / 10 + if ms % 10 >= 5 { 1 } else { 0 };
        push_decimal(&mut s, h / 100);
        s.append(".");
        push_decimal(&mut s, (h % 100) / 10);
        push_decimal(&mut s, h % 10);
        s.append(" seconds\n\n## Test Details\n\n");
        s.append(self.details.as_str());
        s.append("\n");
        proof {
            assert(decimal(((h % 100) / 10) as nat) == seq![digit_char(((h % 100) / 10) as nat)]);
            assert(decimal((h % 10) as nat) == seq![digit_char((h % 10) as nat)]);
            assert(s@ =~= markdown(*self, date@));
        }
        s
    }

    /// The report as a markdown document dated with the local time now.
    pub fn generate_markdown(&self) -> (r: String)
        ensures
            exists|date: Seq<char>| r@ == markdown(*self, date),
    {
        let date = local_timestamp();
        self.render_markdown(date.as_str())
    }

    /// Counts one more step, passed or failed, and adds its narrative line.
    pub fn record_step(&mut self, line: &str, passed: bool)
        requires
            old(self).steps_executed < usize::MAX,
            old(self).steps_passed <= old(self).steps_executed,
        ensures
            final(self).test_file == old(self).test_file,
            final(self).platform == old(self).platform,
            final(self).execution_time_ms == old(self).execution_time_ms,
            final(self).complete == old(self).complete,
            final(self).steps_executed == old(self).steps_executed + 1,
            final(self).steps_passed == old(self).steps_passed + if passed { 1nat } else { 0nat },
            final(self).details@ == old(self).details@ + line@ + "\n"@,
    {
        self.steps_executed = self.steps_executed + 1;
        if passed {
            self.steps_passed = self.steps_passed + 1;
        }
        self.details.append(line);
        self.details.append("\n");
    }
}

} // verus!
