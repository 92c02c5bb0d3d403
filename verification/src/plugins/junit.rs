//! The JUnit plugin: each play is a test suite and each task result a test
//! case, written as a JUnit XML report for CI systems.
use vstd::prelude::*;
use crate::text::{byte_len, byte_prefix, byte_prefix_of, chars_of, dec, is_boundary, push_dec, push_str, str_eq, utf8_len};
use crate::types::{ExecutionResult, ModuleResult};

verus! {

// ---------------------------------------------------------------------------
// Escaping
// ---------------------------------------------------------------------------

/// A character as written in an XML attribute.
pub open spec fn escape_attr_char(c: char) -> Seq<char> {
    if c == '&' {
        "&amp;"@
    } else if c == '<' {
        "&lt;"@
    } else if c == '>' {
        "&gt;"@
    } else if c == '"' {
        "&quot;"@
    } else if c == '\'' {
        "&apos;"@
    } else {
        seq![c]
    }
}

/// A character as written in XML element content.
pub open spec fn escape_content_char(c: char) -> Seq<char> {
    if c == '&' {
        "&amp;"@
    } else if c == '<' {
        "&lt;"@
    } else if c == '>' {
        "&gt;"@
    } else {
        seq![c]
    }
}

/// A string as written in an XML attribute: `& < > " '` escaped.
pub open spec fn escaped_attr(s: Seq<char>) -> Seq<char>
    decreases s.len(),
{
    if s.len() == 0 {
        Seq::empty()
    } else {
        escaped_attr(s.drop_last()) + escape_attr_char(s.last())
    }
}

/// A string as written in XML element content: `& < >` escaped.
pub open spec fn escaped_content(s: Seq<char>) -> Seq<char>
    decreases s.len(),
{
    if s.len() == 0 {
        Seq::empty()
    } else {
        escaped_content(s.drop_last()) + escape_content_char(s.last())
    }
}

/// Escapes the characters that XML attribute values cannot hold.
pub fn escape_xml(s: &str) -> (r: String)
    ensures
        r@ == escaped_attr(s@),
{
    let v = chars_of(s);
    let mut r = String::new();
    let mut i: usize = 0;
    proof {
        reveal_strlit("&amp;");
        reveal_strlit("&lt;");
        reveal_strlit("&gt;");
        reveal_strlit("&quot;");
        reveal_strlit("&apos;");
        assert(v@.subrange(0, 0) =~= Seq::<char>::empty());
    }
    while i < v.len()
        invariant
            i <= v@.len(),
            v@ == s@,
            r@ == escaped_attr(v@.subrange(0, i as int)),
        decreases v.len() - i,
    {
        let c = v[i];
        let ghost before = r@;
        if c == '&' {
            push_str(&mut r, "&amp;");
        } else if c == '<' {
            push_str(&mut r, "&lt;");
        } else if c == '>' {
            push_str(&mut r, "&gt;");
        } else if c == '"' {
            push_str(&mut r, "&quot;");
        } else if c == '\'' {
            push_str(&mut r, "&apos;");
        } else {
            crate::text::push_char(&mut r, c);
        }
        proof {
            let t = v@.subrange(0, i + 1);
            assert(t.drop_last() =~= v@.subrange(0, i as int));
            assert(t.last() == c);
            assert(r@ =~= before + escape_attr_char(c));
        }
        i = i + 1;
    }
    proof {
        assert(v@.subrange(0, i as int) =~= v@);
    }
    r
}

/// Escapes the characters that XML element content cannot hold.
pub fn escape_xml_content(s: &str) -> (r: String)
    ensures
        r@ == escaped_content(s@),
{
    let v = chars_of(s);
    let mut r = String::new();
    let mut i: usize = 0;
    proof {
        assert(v@.subrange(0, 0) =~= Seq::<char>::empty());
    }
    while i < v.len()
        invariant
            i <= v@.len(),
            v@ == s@,
            r@ == escaped_content(v@.subrange(0, i as int)),
        decreases v.len() - i,
    {
        let c = v[i];
        let ghost before = r@;
        if c == '&' {
            push_str(&mut r, "&amp;");
        } else if c == '<' {
            push_str(&mut r, "&lt;");
        } else if c == '>' {
            push_str(&mut r, "&gt;");
        } else {
            crate::text::push_char(&mut r, c);
        }
        proof {
            let t = v@.subrange(0, i + 1);
            assert(t.drop_last() =~= v@.subrange(0, i as int));
            assert(t.last() == c);
            assert(r@ =~= before + escape_content_char(c));
        }
        i = i + 1;
    }
    proof {
        assert(v@.subrange(0, i as int) =~= v@);
    }
    r
}

/// Bytes kept when a message longer than `max_len` bytes is cut.
pub open spec fn kept_bytes(max_len: nat) -> nat {
    if max_len >= 3 {
        (max_len - 3) as nat
    } else {
        0
    }
}

/// A message cut to `max_len` bytes: longer messages keep their first
/// `max_len - 3` bytes and end in `...`.
pub open spec fn truncated(message: Seq<char>, max_len: nat) -> Seq<char> {
    if (utf8_len(message) as usize) <= max_len {
        message
    } else {
        byte_prefix(message, kept_bytes(max_len)) + "..."@
    }
}

/// Cuts a message to `max_len` bytes, ending a cut message in `...` (the
/// cut must fall between two characters).
pub fn truncate_message(message: &str, max_len: usize) -> (r: String)
    requires
        (utf8_len(message@) as usize) > max_len ==> is_boundary(message@, kept_bytes(max_len as nat)),
    ensures
        r@ == truncated(message@, max_len as nat),
{
    if byte_len(message) <= max_len {
        message.to_owned()
    } else {
        let keep: usize = if max_len >= 3 { max_len - 3 } else { 0 };
        let mut r = byte_prefix_of(message, keep);
        push_str(&mut r, "...");
        r
    }
}


// ---------------------------------------------------------------------------
// Suites and cases
// ---------------------------------------------------------------------------

/// How a test case ended.
#[derive(Clone, Debug)]
pub enum TestOutcome {
    /// The task succeeded.
    Passed,
    /// The task was skipped.
    Skipped { message: String },
    /// The task failed.
    Failure { message: String, details: String },
    /// The host could not be reached.
    Error { message: String, details: String },
}

/// A test case: a task on a host, with its time as written (seconds with
/// three decimals).
#[derive(Clone, Debug)]
pub struct TestCase {
    pub name: String,
    pub classname: String,
    pub time_text: String,
    pub outcome: TestOutcome,
}

/// A test suite: a play and its test cases, with its time as written.
#[derive(Clone, Debug)]
pub struct TestSuite {
    pub name: String,
    pub test_cases: Vec<TestCase>,
    pub time_text: String,
}

/// The counts of a test suite.
#[derive(Clone, Copy, Debug, PartialEq, Eq, Structural)]
pub struct SuiteStats {
    pub tests: usize,
    pub passed: usize,
    pub failures: usize,
    pub errors: usize,
    pub skipped: usize,
}

/// How a test case ended, as values.
pub enum OutcomeView {
    Passed,
    Skipped(Seq<char>),
    Failure(Seq<char>, Seq<char>),
    Error(Seq<char>, Seq<char>),
}

/// The value of an outcome.
pub open spec fn outcome_view(o: TestOutcome) -> OutcomeView {
    match o {
        TestOutcome::Passed => OutcomeView::Passed,
        TestOutcome::Skipped { message } => OutcomeView::Skipped(message@),
        TestOutcome::Failure { message, details } => OutcomeView::Failure(message@, details@),
        TestOutcome::Error { message, details } => OutcomeView::Error(message@, details@),
    }
}

/// A test case as values: name, class name, time and outcome.
pub type CaseView = (Seq<char>, Seq<char>, Seq<char>, OutcomeView);

/// The value of a test case.
pub open spec fn case_view(t: TestCase) -> CaseView {
    (t.name@, t.classname@, t.time_text@, outcome_view(t.outcome))
}

/// A suite as values: name, cases and time.
pub type SuiteView = (Seq<char>, Seq<CaseView>, Seq<char>);

/// The value of a suite.
pub open spec fn suite_view(s: TestSuite) -> SuiteView {
    (s.name@, Seq::new(s.test_cases@.len(), |i: int| case_view(s.test_cases@[i])), s.time_text@)
}

/// The values of suites.
pub open spec fn suite_views(ss: Seq<TestSuite>) -> Seq<SuiteView> {
    Seq::new(ss.len(), |i: int| suite_view(ss[i]))
}

/// The position of the first suite called `name`, or the number of suites
/// when there is none.
pub open spec fn suite_pos(ss: Seq<SuiteView>, name: Seq<char>) -> int
    decreases ss.len(),
{
    if ss.len() == 0 {
        0
    } else if ss[0].0 == name {
        0
    } else {
        1 + suite_pos(ss.drop_first(), name)
    }
}

/// The suites with one called `name` at the end if there was none.
pub open spec fn with_suite(ss: Seq<SuiteView>, name: Seq<char>) -> Seq<SuiteView> {
    if suite_pos(ss, name) < ss.len() {
        ss
    } else {
        ss.push((name, Seq::empty(), "0.000"@))
    }
}

/// The suites after a case is added to the first one called `play`
/// (created at the end if there is none).
pub open spec fn with_case(ss: Seq<SuiteView>, play: Seq<char>, c: CaseView) -> Seq<SuiteView> {
    let w = with_suite(ss, play);
    let p = suite_pos(ss, play);
    w.update(p, (w[p].0, w[p].1.push(c), w[p].2))
}

/// The suites after the first one called `name` (if any) gets the time `t`.
pub open spec fn with_time(ss: Seq<SuiteView>, name: Seq<char>, t: Seq<char>) -> Seq<SuiteView> {
    let p = suite_pos(ss, name);
    if p < ss.len() {
        ss.update(p, (ss[p].0, ss[p].1, t))
    } else {
        ss
    }
}

/// `suite_pos` is the first position with the name, or the length.
pub proof fn lemma_suite_pos(ss: Seq<SuiteView>, name: Seq<char>, i: int)
    requires
        0 <= i <= ss.len(),
        forall|j: int| 0 <= j < i ==> ss[j].0 != name,
        i < ss.len() ==> ss[i].0 == name,
    ensures
        suite_pos(ss, name) == i,
    decreases i,
{
    if i > 0 {
        let t = ss.drop_first();
        assert forall|j: int| 0 <= j < i - 1 implies t[j].0 != name by {
            assert(t[j] == ss[j + 1]);
        }
        if i < ss.len() {
            assert(t[i - 1] == ss[i]);
        }
        lemma_suite_pos(t, name, i - 1);
    }
}

/// The number of cases of `cs` with an outcome of the given kind (0
/// passed, 1 skipped, 2 failure, 3 error).
pub open spec fn count_kind(cs: Seq<TestCase>, kind: nat) -> nat
    decreases cs.len(),
{
    if cs.len() == 0 {
        0
    } else {
        count_kind(cs.drop_last(), kind) + if outcome_kind(cs.last().outcome) == kind { 1nat } else { 0nat }
    }
}

/// The kind of an outcome.
pub open spec fn outcome_kind(o: TestOutcome) -> nat {
    match o {
        TestOutcome::Passed => 0,
        TestOutcome::Skipped { .. } => 1,
        TestOutcome::Failure { .. } => 2,
        TestOutcome::Error { .. } => 3,
    }
}

/// Counting a kind counts at most all cases.
pub proof fn lemma_count_kind_bound(cs: Seq<TestCase>, kind: nat)
    ensures
        count_kind(cs, kind) <= cs.len(),
    decreases cs.len(),
{
    if cs.len() > 0 {
        lemma_count_kind_bound(cs.drop_last(), kind);
    }
}

impl TestSuite {
    /// An empty suite.
    pub fn new(name: &str) -> (t: Self)
        ensures
            t.name@ == name@,
            t.test_cases@.len() == 0,
            t.time_text@ == "0.000"@,
    {
        TestSuite { name: name.to_owned(), test_cases: Vec::new(), time_text: "0.000".to_owned() }
    }

    /// The number of cases, and how many passed, failed, errored or were
    /// skipped.
    pub fn stats(&self) -> (s: SuiteStats)
        ensures
            s.tests == self.test_cases@.len(),
            s.passed == count_kind(self.test_cases@, 0),
            s.skipped == count_kind(self.test_cases@, 1),
            s.failures == count_kind(self.test_cases@, 2),
            s.errors == count_kind(self.test_cases@, 3),
    {
        let mut s = SuiteStats { tests: self.test_cases.len(), passed: 0, failures: 0, errors: 0, skipped: 0 };
        let mut i: usize = 0;
        proof {
            assert(self.test_cases@.subrange(0, 0) =~= Seq::<TestCase>::empty());
        }
        while i < self.test_cases.len()
            invariant
                i <= self.test_cases@.len(),
                s.tests == self.test_cases@.len(),
                s.passed == count_kind(self.test_cases@.subrange(0, i as int), 0),
                s.skipped == count_kind(self.test_cases@.subrange(0, i as int), 1),
                s.failures == count_kind(self.test_cases@.subrange(0, i as int), 2),
                s.errors == count_kind(self.test_cases@.subrange(0, i as int), 3),
            decreases self.test_cases.len() - i,
        {
            let ghost t = self.test_cases@.subrange(0, i + 1);
            proof {
                assert(t.drop_last() =~= self.test_cases@.subrange(0, i as int));
                assert(t.last() == self.test_cases@[i as int]);
                lemma_count_kind_bound(self.test_cases@.subrange(0, i as int), 0);
                lemma_count_kind_bound(self.test_cases@.subrange(0, i as int), 1);
                lemma_count_kind_bound(self.test_cases@.subrange(0, i as int), 2);
                lemma_count_kind_bound(self.test_cases@.subrange(0, i as int), 3);
            }
            match &self.test_cases[i].outcome {
                TestOutcome::Passed => s.passed = s.passed + 1,
                TestOutcome::Skipped { .. } => s.skipped = s.skipped + 1,
                TestOutcome::Failure { .. } => s.failures = s.failures + 1,
                TestOutcome::Error { .. } => s.errors = s.errors + 1,
            }
            i = i + 1;
        }
        proof {
            assert(self.test_cases@.subrange(0, i as int) =~= self.test_cases@);
        }
        s
    }
}

/// The details of a failed task.
pub open spec fn failure_details(host: Seq<char>, task: Seq<char>, message: Seq<char>) -> Seq<char> {
    "Task failed on host '"@ + host + "'\nTask: "@ + task + "\nError: "@ + message
}

/// The details of an unreachable host.
pub open spec fn unreachable_details(host: Seq<char>, task: Seq<char>, error: Seq<char>) -> Seq<char> {
    "Failed to connect to host '"@ + host + "'\nTask: "@ + task + "\nError: "@ + error
}

/// The outcome of a task result: skipped with its message, failed with its
/// message cut to 200 bytes and the details, or passed.
pub open spec fn result_outcome(host: Seq<char>, task: Seq<char>, r: ModuleResult) -> OutcomeView {
    if r.skipped {
        OutcomeView::Skipped(r.message@)
    } else if !r.success {
        OutcomeView::Failure(truncated(r.message@, 200), failure_details(host, task, r.message@))
    } else {
        OutcomeView::Passed
    }
}

/// A skipped task is a skipped case carrying its message, else a task that
/// did not succeed is a failure case, else the case passed.
pub proof fn lemma_result_outcome(host: Seq<char>, task: Seq<char>, r: ModuleResult)
    ensures
        r.skipped ==> result_outcome(host, task, r) == OutcomeView::Skipped(r.message@),
        !r.skipped && !r.success ==> result_outcome(host, task, r) is Failure,
        !r.skipped && r.success ==> result_outcome(host, task, r) is Passed,
{
}

/// The case of an unreachable host.
pub open spec fn unreachable_view(host: Seq<char>, task: Seq<char>, error: Seq<char>) -> CaseView {
    (task, host, "0.000"@, OutcomeView::Error("Host unreachable: "@ + host, unreachable_details(host, task, error)))
}

/// What a task result is as a test case: skipped, failed (its message cut
/// to 200 bytes) or passed.
pub fn outcome_of_result(result: &ExecutionResult) -> (o: TestOutcome)
    requires
        (utf8_len(result.result.message@) as usize) > 200 ==> is_boundary(result.result.message@, 197),
    ensures
        outcome_view(o) == result_outcome(result.host@, result.task_name@, result.result),
        result.result.skipped ==> (o matches TestOutcome::Skipped { message } && message@ == result.result.message@),
        !result.result.skipped && !result.result.success ==> (o matches TestOutcome::Failure { message, details }
            && message@ == truncated(result.result.message@, 200) && details@ == failure_details(
            result.host@,
            result.task_name@,
            result.result.message@,
        )),
        !result.result.skipped && result.result.success ==> o is Passed,
{
    if result.result.skipped {
        TestOutcome::Skipped { message: result.result.message.clone() }
    } else if !result.result.success {
        let mut d = String::new();
        push_str(&mut d, "Task failed on host '");
        push_str(&mut d, result.host.as_str());
        push_str(&mut d, "'\nTask: ");
        push_str(&mut d, result.task_name.as_str());
        push_str(&mut d, "\nError: ");
        push_str(&mut d, result.result.message.as_str());
        TestOutcome::Failure { message: truncate_message(result.result.message.as_str(), 200), details: d }
    } else {
        TestOutcome::Passed
    }
}

/// The test case of an unreachable host.
pub fn unreachable_case(host: &str, task_name: &str, error: &str) -> (t: TestCase)
    ensures
        t.name@ == task_name@,
        t.classname@ == host@,
        t.time_text@ == "0.000"@,
        t.outcome matches TestOutcome::Error { message, details } && message@ == "Host unreachable: "@ + host@
            && details@ == unreachable_details(host@, task_name@, error@),
        case_view(t) == unreachable_view(host@, task_name@, error@),
{
    let mut m = String::new();
    push_str(&mut m, "Host unreachable: ");
    push_str(&mut m, host);
    let mut d = String::new();
    push_str(&mut d, "Failed to connect to host '");
    push_str(&mut d, host);
    push_str(&mut d, "'\nTask: ");
    push_str(&mut d, task_name);
    push_str(&mut d, "\nError: ");
    push_str(&mut d, error);
    TestCase {
        name: task_name.to_owned(),
        classname: host.to_owned(),
        time_text: "0.000".to_owned(),
        outcome: TestOutcome::Error { message: m, details: d },
    }
}

/// The XML of a test case.
pub open spec fn testcase_xml(t: TestCase) -> Seq<char> {
    "    <testcase name=\""@ + escaped_attr(t.name@) + "\" classname=\""@ + escaped_attr(t.classname@) + "\" time=\""@
        + t.time_text@ + "\""@ + match t.outcome {
        TestOutcome::Passed => "/>\n"@,
        TestOutcome::Skipped { message } => ">\n      <skipped message=\""@ + escaped_attr(message@) + "\"/>\n    </testcase>\n"@,
        TestOutcome::Failure { message, details } => ">\n      <failure message=\""@ + escaped_attr(message@) + "\">\n"@
            + escaped_content(details@) + "\n      </failure>\n    </testcase>\n"@,
        TestOutcome::Error { message, details } => ">\n      <error message=\""@ + escaped_attr(message@) + "\">\n"@
            + escaped_content(details@) + "\n      </error>\n    </testcase>\n"@,
    }
}

/// A sequence is a prefix of itself followed by anything.
proof fn lemma_prefix_of_add(a: Seq<char>, b: Seq<char>)
    ensures
        a.is_prefix_of(a + b),
{
    assert((a + b).subrange(0, a.len() as int) =~= a);
}

/// A test case's element gives its name, class name and time, then: nothing
/// more for a passed case, a `skipped` element with the message for a
/// skipped one, a `failure` element with the message for a failed one, and
/// an `error` element with the message for one that hit an error.
pub proof fn lemma_testcase_element(t: TestCase)
    ensures
        ({
            let head = "    <testcase name=\""@ + escaped_attr(t.name@) + "\" classname=\""@ + escaped_attr(t.classname@)
                + "\" time=\""@ + t.time_text@ + "\""@;
            &&& head.is_prefix_of(testcase_xml(t))
            &&& (t.outcome is Passed ==> testcase_xml(t) == head + "/>\n"@)
            &&& (t.outcome matches TestOutcome::Skipped { message } ==> (head + ">\n      <skipped message=\""@
                + escaped_attr(message@) + "\"/>"@).is_prefix_of(testcase_xml(t)))
            &&& (t.outcome matches TestOutcome::Failure { message, .. } ==> (head + ">\n      <failure message=\""@
                + escaped_attr(message@) + "\">"@).is_prefix_of(testcase_xml(t)))
            &&& (t.outcome matches TestOutcome::Error { message, .. } ==> (head + ">\n      <error message=\""@
                + escaped_attr(message@) + "\">"@).is_prefix_of(testcase_xml(t)))
        }),
{
    let head = "    <testcase name=\""@ + escaped_attr(t.name@) + "\" classname=\""@ + escaped_attr(t.classname@)
        + "\" time=\""@ + t.time_text@ + "\""@;
    match t.outcome {
        TestOutcome::Passed => {
            lemma_prefix_of_add(head, "/>\n"@);
        },
        TestOutcome::Skipped { message } => {
            let p = head + ">\n      <skipped message=\""@ + escaped_attr(message@) + "\"/>"@;
            reveal_strlit("\"/>\n    </testcase>\n");
            reveal_strlit("\"/>");
            reveal_strlit("\n    </testcase>\n");
            assert("\"/>\n    </testcase>\n"@ =~= "\"/>"@ + "\n    </testcase>\n"@);
            assert(testcase_xml(t) =~= p + "\n    </testcase>\n"@);
            lemma_prefix_of_add(p, "\n    </testcase>\n"@);
            lemma_prefix_of_add(head, p.subrange(head.len() as int, p.len() as int) + "\n    </testcase>\n"@);
            assert(head + (p.subrange(head.len() as int, p.len() as int) + "\n    </testcase>\n"@) =~= testcase_xml(t));
        },
        TestOutcome::Failure { message, details } => {
            let p = head + ">\n      <failure message=\""@ + escaped_attr(message@) + "\">"@;
            let rest = "\n"@ + escaped_content(details@) + "\n      </failure>\n    </testcase>\n"@;
            reveal_strlit("\">\n");
            reveal_strlit("\">");
            reveal_strlit("\n");
            assert("\">\n"@ =~= "\">"@ + "\n"@);
            assert(testcase_xml(t) =~= p + rest);
            lemma_prefix_of_add(p, rest);
            lemma_prefix_of_add(head, p.subrange(head.len() as int, p.len() as int) + rest);
            assert(head + (p.subrange(head.len() as int, p.len() as int) + rest) =~= testcase_xml(t));
        },
        TestOutcome::Error { message, details } => {
            let p = head + ">\n      <error message=\""@ + escaped_attr(message@) + "\">"@;
            let rest = "\n"@ + escaped_content(details@) + "\n      </error>\n    </testcase>\n"@;
            reveal_strlit("\">\n");
            reveal_strlit("\">");
            reveal_strlit("\n");
            assert("\">\n"@ =~= "\">"@ + "\n"@);
            assert(testcase_xml(t) =~= p + rest);
            lemma_prefix_of_add(p, rest);
            lemma_prefix_of_add(head, p.subrange(head.len() as int, p.len() as int) + rest);
            assert(head + (p.subrange(head.len() as int, p.len() as int) + rest) =~= testcase_xml(t));
        },
    }
}

/// Writes a test case as XML.
pub fn generate_testcase_xml(tc: &TestCase) -> (x: String)
    ensures
        x@ == testcase_xml(*tc),
{
    let mut x = String::new();
    push_str(&mut x, "    <testcase name=\"");
    push_str(&mut x, escape_xml(tc.name.as_str()).as_str());
    push_str(&mut x, "\" classname=\"");
    push_str(&mut x, escape_xml(tc.classname.as_str()).as_str());
    push_str(&mut x, "\" time=\"");
    push_str(&mut x, tc.time_text.as_str());
    push_str(&mut x, "\"");
    match &tc.outcome {
        TestOutcome::Passed => {
            push_str(&mut x, "/>\n");
        },
        TestOutcome::Skipped { message } => {
            push_str(&mut x, ">\n      <skipped message=\"");
            push_str(&mut x, escape_xml(message.as_str()).as_str());
            push_str(&mut x, "\"/>\n    </testcase>\n");
        },
        TestOutcome::Failure { message, details } => {
            push_str(&mut x, ">\n      <failure message=\"");
            push_str(&mut x, escape_xml(message.as_str()).as_str());
            push_str(&mut x, "\">\n");
            push_str(&mut x, escape_xml_content(details.as_str()).as_str());
            push_str(&mut x, "\n      </failure>\n    </testcase>\n");
        },
        TestOutcome::Error { message, details } => {
            push_str(&mut x, ">\n      <error message=\"");
            push_str(&mut x, escape_xml(message.as_str()).as_str());
            push_str(&mut x, "\">\n");
            push_str(&mut x, escape_xml_content(details.as_str()).as_str());
            push_str(&mut x, "\n      </error>\n    </testcase>\n");
        },
    }
    proof {
        assert(x@ =~= testcase_xml(*tc));
    }
    x
}

/// The XML of the first `k` test cases.
pub open spec fn testcases_xml(cs: Seq<TestCase>, k: int) -> Seq<char>
    decreases k,
{
    if k <= 0 || k > cs.len() {
        Seq::empty()
    } else {
        testcases_xml(cs, k - 1) + testcase_xml(cs[k - 1])
    }
}

/// The XML of a test suite.
pub open spec fn testsuite_xml(s: TestSuite) -> Seq<char> {
    "  <testsuite name=\""@ + escaped_attr(s.name@) + "\" tests=\""@ + dec(s.test_cases@.len()) + "\" failures=\""@
        + dec(count_kind(s.test_cases@, 2)) + "\" errors=\""@ + dec(count_kind(s.test_cases@, 3)) + "\" skipped=\""@
        + dec(count_kind(s.test_cases@, 1)) + "\" time=\""@ + s.time_text@ + "\">\n"@ + testcases_xml(
        s.test_cases@,
        s.test_cases@.len() as int,
    ) + "  </testsuite>\n"@
}

/// Writes a test suite as XML.
pub fn generate_testsuite_xml(suite: &TestSuite) -> (x: String)
    ensures
        x@ == testsuite_xml(*suite),
{
    let st = suite.stats();
    let mut x = String::new();
    push_str(&mut x, "  <testsuite name=\"");
    push_str(&mut x, escape_xml(suite.name.as_str()).as_str());
    push_str(&mut x, "\" tests=\"");
    push_dec(&mut x, st.tests as u64);
    push_str(&mut x, "\" failures=\"");
    push_dec(&mut x, st.failures as u64);
    push_str(&mut x, "\" errors=\"");
    push_dec(&mut x, st.errors as u64);
    push_str(&mut x, "\" skipped=\"");
    push_dec(&mut x, st.skipped as u64);
    push_str(&mut x, "\" time=\"");
    push_str(&mut x, suite.time_text.as_str());
    push_str(&mut x, "\">\n");
    let ghost head = x@;
    let mut i: usize = 0;
    while i < suite.test_cases.len()
        invariant
            i <= suite.test_cases@.len(),
            x@ == head + testcases_xml(suite.test_cases@, i as int),
        decreases suite.test_cases.len() - i,
    {
        push_str(&mut x, generate_testcase_xml(&suite.test_cases[i]).as_str());
        i = i + 1;
    }
    push_str(&mut x, "  </testsuite>\n");
    proof {
        assert(x@ =~= testsuite_xml(*suite));
    }
    x
}


/// The XML of the first `k` suites.
pub open spec fn testsuites_xml(ss: Seq<TestSuite>, k: int) -> Seq<char>
    decreases k,
{
    if k <= 0 || k > ss.len() {
        Seq::empty()
    } else {
        testsuites_xml(ss, k - 1) + testsuite_xml(ss[k - 1])
    }
}

/// A count summed over the first `k` suites.
pub open spec fn total_kind(ss: Seq<TestSuite>, k: int, kind: nat) -> int
    decreases k,
{
    if k <= 0 || k > ss.len() {
        0
    } else {
        total_kind(ss, k - 1, kind) + count_kind(ss[k - 1].test_cases@, kind)
    }
}

/// The number of cases of the first `k` suites.
pub open spec fn total_tests(ss: Seq<TestSuite>, k: int) -> int
    decreases k,
{
    if k <= 0 || k > ss.len() {
        0
    } else {
        total_tests(ss, k - 1) + ss[k - 1].test_cases@.len()
    }
}

/// The whole report.
pub open spec fn report_xml(name: Seq<char>, time: Seq<char>, ss: Seq<TestSuite>) -> Seq<char> {
    let n = ss.len() as int;
    "<?xml version=\"1.0\" encoding=\"UTF-8\"?>\n"@ + "<testsuites name=\""@ + escaped_attr(name) + "\" tests=\""@
        + dec(total_tests(ss, n) as nat) + "\" failures=\""@ + dec(total_kind(ss, n, 2) as nat) + "\" errors=\""@
        + dec(total_kind(ss, n, 3) as nat) + "\" skipped=\""@ + dec(total_kind(ss, n, 1) as nat) + "\" time=\""@ + time
        + "\">\n"@ + testsuites_xml(ss, n) + "</testsuites>\n"@
}

/// The cases whose outcome is a failure.
pub open spec fn failed_cases(cs: Seq<TestCase>) -> Seq<TestCase> {
    cs.filter(|c: TestCase| c.outcome is Failure)
}

/// The cases whose outcome is an error (host unreachable).
pub open spec fn error_cases(cs: Seq<TestCase>) -> Seq<TestCase> {
    cs.filter(|c: TestCase| c.outcome is Error)
}

/// The cases that were skipped.
pub open spec fn skipped_cases(cs: Seq<TestCase>) -> Seq<TestCase> {
    cs.filter(|c: TestCase| c.outcome is Skipped)
}

/// The cases of the first `k` suites, one suite after the other.
pub open spec fn all_cases(ss: Seq<TestSuite>, k: int) -> Seq<TestCase>
    decreases k,
{
    if k <= 0 || k > ss.len() {
        Seq::empty()
    } else {
        all_cases(ss, k - 1) + ss[k - 1].test_cases@
    }
}

/// Counting a kind counts the cases with an outcome of that kind.
pub proof fn lemma_count_kind_cases(cs: Seq<TestCase>)
    ensures
        count_kind(cs, 1) == skipped_cases(cs).len(),
        count_kind(cs, 2) == failed_cases(cs).len(),
        count_kind(cs, 3) == error_cases(cs).len(),
    decreases cs.len(),
{
    reveal(Seq::filter);
    if cs.len() > 0 {
        lemma_count_kind_cases(cs.drop_last());
    }
}

/// A suite's opening tag gives its name, its number of cases, and the
/// numbers of its cases that failed, that hit an error and that were
/// skipped, then its time.
pub proof fn lemma_testsuite_counts(s: TestSuite)
    ensures
        ("  <testsuite name=\""@ + escaped_attr(s.name@) + "\" tests=\""@ + dec(s.test_cases@.len())
            + "\" failures=\""@ + dec(failed_cases(s.test_cases@).len()) + "\" errors=\""@ + dec(
            error_cases(s.test_cases@).len(),
        ) + "\" skipped=\""@ + dec(skipped_cases(s.test_cases@).len()) + "\" time=\""@ + s.time_text@
            + "\">\n"@).is_prefix_of(testsuite_xml(s)),
{
    lemma_count_kind_cases(s.test_cases@);
    let head = "  <testsuite name=\""@ + escaped_attr(s.name@) + "\" tests=\""@ + dec(s.test_cases@.len())
        + "\" failures=\""@ + dec(failed_cases(s.test_cases@).len()) + "\" errors=\""@ + dec(
        error_cases(s.test_cases@).len(),
    ) + "\" skipped=\""@ + dec(skipped_cases(s.test_cases@).len()) + "\" time=\""@ + s.time_text@ + "\">\n"@;
    let rest = testcases_xml(s.test_cases@, s.test_cases@.len() as int) + "  </testsuite>\n"@;
    assert(testsuite_xml(s) =~= head + rest);
    assert(head.is_prefix_of(head + rest)) by {
        assert((head + rest).subrange(0, head.len() as int) =~= head);
    }
}

/// Totals over suites count the cases of all suites.
pub proof fn lemma_total_kind_cases(ss: Seq<TestSuite>, k: int)
    requires
        0 <= k <= ss.len(),
    ensures
        total_tests(ss, k) == all_cases(ss, k).len(),
        total_kind(ss, k, 1) == skipped_cases(all_cases(ss, k)).len(),
        total_kind(ss, k, 2) == failed_cases(all_cases(ss, k)).len(),
        total_kind(ss, k, 3) == error_cases(all_cases(ss, k)).len(),
    decreases k,
{
    if k == 0 {
        reveal(Seq::filter);
    } else {
        lemma_total_kind_cases(ss, k - 1);
        let a = all_cases(ss, k - 1);
        let b = ss[k - 1].test_cases@;
        lemma_count_kind_cases(b);
        Seq::filter_distributes_over_add(a, b, |c: TestCase| c.outcome is Failure);
        Seq::filter_distributes_over_add(a, b, |c: TestCase| c.outcome is Error);
        Seq::filter_distributes_over_add(a, b, |c: TestCase| c.outcome is Skipped);
    }
}

/// The report's opening tag gives the number of cases of all suites and the
/// numbers of those that failed, that hit an error and that were skipped.
pub proof fn lemma_report_counts(name: Seq<char>, time: Seq<char>, ss: Seq<TestSuite>)
    ensures
        ({
            let cs = all_cases(ss, ss.len() as int);
            "<?xml version=\"1.0\" encoding=\"UTF-8\"?>\n"@ + "<testsuites name=\""@ + escaped_attr(name)
                + "\" tests=\""@ + dec(cs.len()) + "\" failures=\""@ + dec(failed_cases(cs).len())
                + "\" errors=\""@ + dec(error_cases(cs).len()) + "\" skipped=\""@ + dec(skipped_cases(cs).len())
                + "\" time=\""@ + time + "\">\n"@
        }).is_prefix_of(report_xml(name, time, ss)),
{
    let n = ss.len() as int;
    lemma_total_kind_cases(ss, n);
    let cs = all_cases(ss, n);
    let head = "<?xml version=\"1.0\" encoding=\"UTF-8\"?>\n"@ + "<testsuites name=\""@ + escaped_attr(name)
        + "\" tests=\""@ + dec(cs.len()) + "\" failures=\""@ + dec(failed_cases(cs).len()) + "\" errors=\""@
        + dec(error_cases(cs).len()) + "\" skipped=\""@ + dec(skipped_cases(cs).len()) + "\" time=\""@ + time
        + "\">\n"@;
    let rest = testsuites_xml(ss, n) + "</testsuites>\n"@;
    assert(report_xml(name, time, ss) =~= head + rest);
    assert(head.is_prefix_of(head + rest)) by {
        assert((head + rest).subrange(0, head.len() as int) =~= head);
    }
}

/// Callback that collects results as JUnit test cases.
#[derive(Debug)]
pub struct JUnitCallback {
    output_path: String,
    test_suites: Vec<TestSuite>,
    playbook_name: Option<String>,
    current_play: Option<String>,
    playbook_success: bool,
}

impl JUnitCallback {
    /// The suites.
    pub closed spec fn suites(&self) -> Seq<TestSuite> {
        self.test_suites@
    }

    /// Whether the playbook is still successful.
    pub closed spec fn spec_success(&self) -> bool {
        self.playbook_success
    }

    /// The playbook's name.
    pub closed spec fn spec_playbook(&self) -> Option<Seq<char>> {
        crate::plugins::actionable::opt_chars(self.playbook_name)
    }

    /// The current play.
    pub closed spec fn spec_play(&self) -> Option<Seq<char>> {
        crate::plugins::actionable::opt_chars(self.current_play)
    }

    /// The report's path.
    pub closed spec fn spec_path(&self) -> Seq<char> {
        self.output_path@
    }

    /// A callback writing to `output_path`.
    pub fn new(output_path: &str) -> (c: Self)
        ensures
            c.spec_path() == output_path@,
            c.suites().len() == 0,
            c.spec_success(),
            c.spec_playbook() is None,
            c.spec_play() is None,
    {
        JUnitCallback {
            output_path: output_path.to_owned(),
            test_suites: Vec::new(),
            playbook_name: None,
            current_play: None,
            playbook_success: true,
        }
    }

    /// A callback writing to `junit.xml`.
    pub fn with_default_path() -> (c: Self)
        ensures
            c.spec_path() == "junit.xml"@,
            c.suites().len() == 0,
            c.spec_success(),
    {
        Self::new("junit.xml")
    }

    /// The report's path.
    pub fn output_path(&self) -> (p: &str)
        ensures
            p@ == self.spec_path(),
    {
        self.output_path.as_str()
    }

    /// Whether something failed.
    pub fn has_failures(&self) -> (b: bool)
        ensures
            b == !self.spec_success(),
    {
        !self.playbook_success
    }

    /// The position of the suite of `play`, creating it at the end if
    /// there is none.
    fn get_or_create_suite(&mut self, play: &str) -> (i: usize)
        ensures
            i == suite_pos(suite_views(old(self).suites()), play@),
            i < final(self).suites().len(),
            suite_views(final(self).suites()) == with_suite(suite_views(old(self).suites()), play@),
            final(self).spec_success() == old(self).spec_success(),
            final(self).spec_play() == old(self).spec_play(),
            final(self).spec_playbook() == old(self).spec_playbook(),
            final(self).spec_path() == old(self).spec_path(),
    {
        let ghost vs = suite_views(self.suites());
        let mut i: usize = 0;
        while i < self.test_suites.len()
            invariant
                i <= self.test_suites@.len(),
                self.test_suites@ == old(self).test_suites@,
                vs == suite_views(old(self).suites()),
                forall|j: int| 0 <= j < i ==> self.test_suites@[j].name@ != play@,
            decreases self.test_suites.len() - i,
        {
            if str_eq(self.test_suites[i].name.as_str(), play) {
                proof {
                    assert forall|j: int| 0 <= j < i implies vs[j].0 != play@ by {
                        assert(vs[j].0 == self.test_suites@[j].name@);
                    }
                    lemma_suite_pos(vs, play@, i as int);
                }
                return i;
            }
            i = i + 1;
        }
        proof {
            assert forall|j: int| 0 <= j < vs.len() implies vs[j].0 != play@ by {
                assert(vs[j].0 == self.test_suites@[j].name@);
            }
            lemma_suite_pos(vs, play@, vs.len() as int);
        }
        let fresh = TestSuite::new(play);
        proof {
            assert(suite_view(fresh) =~= (play@, Seq::<CaseView>::empty(), "0.000"@));
        }
        self.test_suites.push(fresh);
        proof {
            assert(suite_views(self.suites()) =~= vs.push(suite_view(fresh)));
        }
        self.test_suites.len() - 1
    }

    /// A playbook starts: earlier suites are dropped and it is successful.
    pub fn on_playbook_start(&mut self, name: &str)
        ensures
            final(self).suites().len() == 0,
            final(self).spec_success(),
            final(self).spec_playbook() == Some(name@),
            final(self).spec_play() == old(self).spec_play(),
            final(self).spec_path() == old(self).spec_path(),
    {
        self.playbook_name = Some(name.to_owned());
        self.playbook_success = true;
        self.test_suites = Vec::new();
    }

    /// A play starts: it is the current play and has a suite.
    pub fn on_play_start(&mut self, name: &str)
        ensures
            final(self).spec_play() == Some(name@),
            suite_views(final(self).suites()) == with_suite(suite_views(old(self).suites()), name@),
            final(self).spec_success() == old(self).spec_success(),
            final(self).spec_playbook() == old(self).spec_playbook(),
            final(self).spec_path() == old(self).spec_path(),
    {
        self.current_play = Some(name.to_owned());
        self.get_or_create_suite(name);
    }

    /// A play ends: its suite's time is `time_text` (seconds with three
    /// decimals).
    pub fn on_play_end(&mut self, name: &str, time_text: &str)
        ensures
            suite_views(final(self).suites()) == with_time(suite_views(old(self).suites()), name@, time_text@),
            final(self).spec_success() == old(self).spec_success(),
            final(self).spec_play() == old(self).spec_play(),
            final(self).spec_playbook() == old(self).spec_playbook(),
            final(self).spec_path() == old(self).spec_path(),
    {
        let ghost vs = suite_views(self.suites());
        let mut i: usize = 0;
        while i < self.test_suites.len()
            invariant
                i <= self.test_suites@.len(),
                self.test_suites@ == old(self).test_suites@,
                vs == suite_views(old(self).suites()),
                self.playbook_success == old(self).playbook_success,
                self.current_play == old(self).current_play,
                self.playbook_name == old(self).playbook_name,
                self.output_path == old(self).output_path,
                forall|j: int| 0 <= j < i ==> self.test_suites@[j].name@ != name@,
            decreases self.test_suites.len() - i,
        {
            if str_eq(self.test_suites[i].name.as_str(), name) {
                proof {
                    assert forall|j: int| 0 <= j < i implies vs[j].0 != name@ by {
                        assert(vs[j].0 == self.test_suites@[j].name@);
                    }
                    lemma_suite_pos(vs, name@, i as int);
                }
                let mut s = self.test_suites.remove(i);
                s.time_text = time_text.to_owned();
                let ghost sv = suite_view(s);
                self.test_suites.insert(i, s);
                proof {
                    assert(suite_views(self.suites()) =~= with_time(vs, name@, time_text@));
                }
                return;
            }
            i = i + 1;
        }
        proof {
            assert forall|j: int| 0 <= j < vs.len() implies vs[j].0 != name@ by {
                assert(vs[j].0 == self.test_suites@[j].name@);
            }
            lemma_suite_pos(vs, name@, vs.len() as int);
        }
    }

    /// Adds a case to the suite of the current play (`Unknown Play` when
    /// there is none).
    fn add_case(&mut self, tc: TestCase)
        ensures
            suite_views(final(self).suites()) == with_case(
                suite_views(old(self).suites()),
                match old(self).spec_play() {
                    Some(p) => p,
                    None => "Unknown Play"@,
                },
                case_view(tc),
            ),
            final(self).spec_success() == old(self).spec_success(),
            final(self).spec_play() == old(self).spec_play(),
            final(self).spec_playbook() == old(self).spec_playbook(),
            final(self).spec_path() == old(self).spec_path(),
    {
        let play = match &self.current_play {
            Some(p) => p.clone(),
            None => "Unknown Play".to_owned(),
        };
        let ghost vs = suite_views(self.suites());
        let i = self.get_or_create_suite(play.as_str());
        let ghost ws = suite_views(self.suites());
        let ghost cv = case_view(tc);
        let mut s = self.test_suites.remove(i);
        let ghost before = suite_view(s);
        s.test_cases.push(tc);
        proof {
            assert(suite_view(s) =~= (before.0, before.1.push(cv), before.2));
        }
        self.test_suites.insert(i, s);
        proof {
            assert(suite_views(self.suites()) =~= ws.update(i as int, (ws[i as int].0, ws[i as int].1.push(cv), ws[i as int].2)));
        }
    }

    /// A task finished: it becomes a test case (with `time_text`, its
    /// time in seconds with three decimals) of the current play's suite,
    /// and a failure makes the playbook fail.
    pub fn on_task_complete(&mut self, result: &ExecutionResult, time_text: &str)
        requires
            (utf8_len(result.result.message@) as usize) > 200 ==> is_boundary(result.result.message@, 197),
        ensures
            final(self).spec_success() == (old(self).spec_success() && !(!result.result.success && !result.result.skipped)),
            final(self).spec_play() == old(self).spec_play(),
            final(self).spec_playbook() == old(self).spec_playbook(),
            final(self).spec_path() == old(self).spec_path(),
            suite_views(final(self).suites()) == with_case(
                suite_views(old(self).suites()),
                match old(self).spec_play() {
                    Some(p) => p,
                    None => "Unknown Play"@,
                },
                (
                    result.task_name@,
                    result.host@,
                    time_text@,
                    result_outcome(result.host@, result.task_name@, result.result),
                ),
            ),
    {
        let outcome = outcome_of_result(result);
        let tc = TestCase {
            name: result.task_name.clone(),
            classname: result.host.clone(),
            time_text: time_text.to_owned(),
            outcome,
        };
        self.add_case(tc);
        if !result.result.success && !result.result.skipped {
            self.playbook_success = false;
        }
    }

    /// A host could not be reached: an error case is recorded and the
    /// playbook fails.
    pub fn on_host_unreachable(&mut self, host: &str, task_name: &str, error: &str)
        ensures
            !final(self).spec_success(),
            final(self).spec_play() == old(self).spec_play(),
            final(self).spec_playbook() == old(self).spec_playbook(),
            final(self).spec_path() == old(self).spec_path(),
            suite_views(final(self).suites()) == with_case(
                suite_views(old(self).suites()),
                match old(self).spec_play() {
                    Some(p) => p,
                    None => "Unknown Play"@,
                },
                unreachable_view(host@, task_name@, error@),
            ),
    {
        let tc = unreachable_case(host, task_name, error);
        self.add_case(tc);
        self.playbook_success = false;
    }

    /// The playbook ended: its success is as reported.
    pub fn on_playbook_end(&mut self, success: bool)
        ensures
            final(self).spec_success() == success,
            final(self).suites() == old(self).suites(),
            final(self).spec_play() == old(self).spec_play(),
            final(self).spec_playbook() == old(self).spec_playbook(),
            final(self).spec_path() == old(self).spec_path(),
    {
        self.playbook_success = success;
    }

    /// The report, with `total_time` (the playbook's seconds with three
    /// decimals); the number of cases must fit in `usize`.
    pub fn generate_xml(&self, total_time: &str) -> (x: String)
        requires
            total_tests(self.suites(), self.suites().len() as int) <= usize::MAX,
        ensures
            x@ == report_xml(
                match self.spec_playbook() {
                    Some(n) => n,
                    None => "Rustible Playbook"@,
                },
                total_time@,
                self.suites(),
            ),
    {
        let ghost ss = self.suites();
        let n = self.test_suites.len();
        let mut tests: usize = 0;
        let mut failures: usize = 0;
        let mut errors: usize = 0;
        let mut skipped: usize = 0;
        let mut body = String::new();
        let mut i: usize = 0;
        while i < n
            invariant
                i <= n == ss.len(),
                ss == self.suites(),
                total_tests(ss, n as int) <= usize::MAX,
                tests == total_tests(ss, i as int),
                failures == total_kind(ss, i as int, 2),
                errors == total_kind(ss, i as int, 3),
                skipped == total_kind(ss, i as int, 1),
                body@ == testsuites_xml(ss, i as int),
            decreases n - i,
        {
            let st = self.test_suites[i].stats();
            proof {
                lemma_totals(ss, i + 1, n as int);
            }
            tests = tests + st.tests;
            failures = failures + st.failures;
            errors = errors + st.errors;
            skipped = skipped + st.skipped;
            push_str(&mut body, generate_testsuite_xml(&self.test_suites[i]).as_str());
            i = i + 1;
        }
        let mut x = String::new();
        push_str(&mut x, "<?xml version=\"1.0\" encoding=\"UTF-8\"?>\n");
        push_str(&mut x, "<testsuites name=\"");
        let name = match &self.playbook_name {
            Some(n) => escape_xml(n.as_str()),
            None => escape_xml("Rustible Playbook"),
        };
        push_str(&mut x, name.as_str());
        push_str(&mut x, "\" tests=\"");
        push_dec(&mut x, tests as u64);
        push_str(&mut x, "\" failures=\"");
        push_dec(&mut x, failures as u64);
        push_str(&mut x, "\" errors=\"");
        push_dec(&mut x, errors as u64);
        push_str(&mut x, "\" skipped=\"");
        push_dec(&mut x, skipped as u64);
        push_str(&mut x, "\" time=\"");
        push_str(&mut x, total_time);
        push_str(&mut x, "\">\n");
        push_str(&mut x, body.as_str());
        push_str(&mut x, "</testsuites>\n");
        proof {
            reveal_strlit("Rustible Playbook");
        }
        x
    }
}

/// The totals of a prefix of suites: counts of a kind stay within the
/// cases, and a prefix has no more cases than a longer one.
pub proof fn lemma_totals(ss: Seq<TestSuite>, k: int, n: int)
    requires
        0 <= k <= n <= ss.len(),
    ensures
        total_tests(ss, k) <= total_tests(ss, n),
        0 <= total_kind(ss, k, 1) <= total_tests(ss, k),
        0 <= total_kind(ss, k, 2) <= total_tests(ss, k),
        0 <= total_kind(ss, k, 3) <= total_tests(ss, k),
        total_kind(ss, k, 1) + total_kind(ss, k, 2) + total_kind(ss, k, 3) <= total_tests(ss, k),
    decreases n,
{
    if k < n {
        lemma_totals(ss, k, n - 1);
    } else if k > 0 {
        lemma_totals(ss, k - 1, k - 1);
        lemma_count_kinds(ss[k - 1].test_cases@);
    }
}

/// The counts of the kinds add up to no more than the cases.
pub proof fn lemma_count_kinds(cs: Seq<TestCase>)
    ensures
        count_kind(cs, 1) + count_kind(cs, 2) + count_kind(cs, 3) <= cs.len(),
    decreases cs.len(),
{
    if cs.len() > 0 {
        lemma_count_kinds(cs.drop_last());
    }
}


/// Every case passed, was skipped, failed or errored: the four counts of a
/// suite add up to its cases.
pub proof fn lemma_kinds_partition(cs: Seq<TestCase>)
    ensures
        count_kind(cs, 0) + count_kind(cs, 1) + count_kind(cs, 2) + count_kind(cs, 3) == cs.len(),
    decreases cs.len(),
{
    if cs.len() > 0 {
        lemma_kinds_partition(cs.drop_last());
    }
}

} // verus!
