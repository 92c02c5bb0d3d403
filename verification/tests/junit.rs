use rustible_callback::plugins::junit::{
    escape_xml, truncate_message, JUnitCallback, TestCase, TestOutcome, TestSuite,
};
use rustible_callback::types::{Elapsed, ExecutionResult, ModuleResult};

fn create_execution_result(
    host: &str,
    task_name: &str,
    success: bool,
    changed: bool,
    skipped: bool,
    message: &str,
) -> ExecutionResult {
    ExecutionResult {
        host: host.to_string(),
        task_name: task_name.to_string(),
        result: ModuleResult {
            success,
            changed,
            message: message.to_string(),
            skipped,
            data: None,
            warnings: Vec::new(),
        },
        duration: Elapsed::from_millis(100),
        notify: Vec::new(),
    }
}

#[test]
fn test_junit_callback_basic() {
    let mut callback = JUnitCallback::new("/tmp/test-junit.xml");
    callback.on_playbook_start("test-playbook");
    callback.on_play_start("test-play");
    callback.on_task_complete(&create_execution_result("host1", "task1", true, false, false, "ok"), "0.100");
    callback.on_task_complete(
        &create_execution_result("host1", "task2", false, false, false, "error occurred"),
        "0.100",
    );
    callback.on_play_end("test-play", "0.200");
    callback.on_playbook_end(false);

    let xml = callback.generate_xml("0.200");
    assert!(xml.contains("<?xml version=\"1.0\" encoding=\"UTF-8\"?>"));
    assert!(xml.contains("<testsuites"));
    assert!(xml.contains("tests=\"2\""));
    assert!(xml.contains("failures=\"1\""));
    assert!(xml.contains("<testsuite name=\"test-play\""));
    assert!(xml.contains("<testcase name=\"task1\""));
    assert!(xml.contains("<testcase name=\"task2\""));
    assert!(xml.contains("<failure"));
}

#[test]
fn test_junit_callback_skipped() {
    let mut callback = JUnitCallback::new("/tmp/test-junit-skip.xml");
    callback.on_playbook_start("test-playbook");
    callback.on_play_start("test-play");
    callback.on_task_complete(
        &create_execution_result("host1", "task1", true, false, true, "condition not met"),
        "0.100",
    );
    callback.on_play_end("test-play", "0.100");
    callback.on_playbook_end(true);

    let xml = callback.generate_xml("0.100");
    assert!(xml.contains("skipped=\"1\""));
    assert!(xml.contains("<skipped message=\"condition not met\""));
}

#[test]
fn test_junit_callback_multiple_hosts() {
    let mut callback = JUnitCallback::new("/tmp/test-junit-multi.xml");
    callback.on_playbook_start("test-playbook");
    callback.on_play_start("test-play");
    callback.on_task_complete(&create_execution_result("host1", "task1", true, true, false, "changed"), "0.100");
    callback.on_task_complete(&create_execution_result("host2", "task1", true, false, false, "ok"), "0.100");
    callback.on_play_end("test-play", "0.200");
    callback.on_playbook_end(true);

    let xml = callback.generate_xml("0.200");
    assert!(xml.contains("tests=\"2\""));
    assert!(xml.contains("classname=\"host1\""));
    assert!(xml.contains("classname=\"host2\""));
}

#[test]
fn test_junit_callback_unreachable() {
    let mut callback = JUnitCallback::new("/tmp/test-junit-unreachable.xml");
    callback.on_playbook_start("test-playbook");
    callback.on_play_start("test-play");
    callback.on_host_unreachable("host1", "gather_facts", "Connection refused");
    callback.on_play_end("test-play", "0.000");
    callback.on_playbook_end(false);

    let xml = callback.generate_xml("0.000");
    assert!(xml.contains("errors=\"1\""));
    assert!(xml.contains("<error message=\"Host unreachable: host1\""));
}

#[test]
fn test_junit_callback_has_failures() {
    let mut callback = JUnitCallback::new("/tmp/test-junit-failures.xml");
    callback.on_playbook_start("test-playbook");
    callback.on_play_start("test-play");
    assert!(!callback.has_failures());
    callback.on_task_complete(&create_execution_result("host1", "task1", false, false, false, "error"), "0.100");
    assert!(callback.has_failures());
}

#[test]
fn test_escape_xml() {
    assert_eq!(escape_xml("hello"), "hello");
    assert_eq!(escape_xml("<test>"), "&lt;test&gt;");
    assert_eq!(escape_xml("a & b"), "a &amp; b");
    assert_eq!(escape_xml("\"quoted\""), "&quot;quoted&quot;");
    assert_eq!(escape_xml("it's"), "it&apos;s");
}

#[test]
fn test_truncate_message() {
    assert_eq!(truncate_message("short", 100), "short");
    assert_eq!(truncate_message("hello world", 8), "hello...");
    assert_eq!(truncate_message("abc", 3), "abc");
}

#[test]
fn test_suite_stats() {
    let mut suite = TestSuite::new("test");
    suite.test_cases.push(TestCase {
        name: "t1".to_string(),
        classname: "host".to_string(),
        time_text: "1.000".to_string(),
        outcome: TestOutcome::Passed,
    });
    suite.test_cases.push(TestCase {
        name: "t2".to_string(),
        classname: "host".to_string(),
        time_text: "2.000".to_string(),
        outcome: TestOutcome::Failure { message: "failed".to_string(), details: "details".to_string() },
    });
    suite.test_cases.push(TestCase {
        name: "t3".to_string(),
        classname: "host".to_string(),
        time_text: "0.500".to_string(),
        outcome: TestOutcome::Skipped { message: "skipped".to_string() },
    });

    let stats = suite.stats();
    assert_eq!(stats.tests, 3);
    assert_eq!(stats.passed, 1);
    assert_eq!(stats.failures, 1);
    assert_eq!(stats.skipped, 1);
    assert_eq!(stats.errors, 0);
}

#[test]
fn test_output_path() {
    let callback = JUnitCallback::new("/path/to/output.xml");
    assert_eq!(callback.output_path(), "/path/to/output.xml");
}

#[test]
fn test_with_default_path() {
    let callback = JUnitCallback::with_default_path();
    assert_eq!(callback.output_path(), "junit.xml");
}

#[test]
fn junit_escape_in_messages() {
    assert_eq!(escape_xml("<a & 'b'>"), "&lt;a &amp; &apos;b&apos;&gt;");
    assert_eq!(truncate_message("abcdef", 4), "a...");
}
