use rustible_callback::diff::{
    count_changes, generate_diff, has_changes, radius_of, CompositeCallback, DiffCallback, DiffConfig,
};

#[test]
fn test_diff_config_default() {
    let config = DiffConfig::default();
    assert_eq!(config.context_lines, 3);
    assert!(config.use_color);
    assert!(config.show_line_numbers);
    assert_eq!(config.max_lines, 100);
    assert!(config.enabled);
}

#[test]
fn test_diff_config_builder() {
    let config = DiffConfig::default()
        .with_context_lines(5)
        .with_color(false)
        .with_line_numbers(false)
        .with_max_lines(50);

    assert_eq!(config.context_lines, 5);
    assert!(!config.use_color);
    assert!(!config.show_line_numbers);
    assert_eq!(config.max_lines, 50);
}

#[test]
fn test_diff_config_enabled_disabled() {
    let enabled = DiffConfig::enabled();
    assert!(enabled.enabled);

    let disabled = DiffConfig::disabled();
    assert!(!disabled.enabled);
}

#[test]
fn test_diff_callback_creation() {
    let callback = DiffCallback::new();
    assert!(callback.is_enabled());

    let callback = DiffCallback::enabled();
    assert!(callback.is_enabled());

    let callback = DiffCallback::disabled();
    assert!(!callback.is_enabled());
}

#[test]
fn test_generate_diff() {
    let before = "line1\nline2\nline3\n";
    let after = "line1\nmodified\nline3\n";

    let diff = generate_diff(before, after, 3);

    assert!(diff.contains("--- before"));
    assert!(diff.contains("+++ after"));
    assert!(diff.contains("-line2"));
    assert!(diff.contains("+modified"));
}

#[test]
fn test_generate_diff_no_changes() {
    let content = "line1\nline2\nline3\n";
    let diff = generate_diff(content, content, 3);

    assert!(diff.contains("--- before"));
    assert!(diff.contains("+++ after"));
}

#[test]
fn test_has_changes() {
    assert!(has_changes("old", "new"));
    assert!(!has_changes("same", "same"));
    assert!(has_changes("", "something"));
    assert!(has_changes("something", ""));
}

#[test]
fn test_count_changes() {
    let before = "line1\nline2\nline3\n";
    let after = "line1\nmodified\nline3\nnew_line\n";

    let (added, removed) = count_changes(before, after);

    assert_eq!(removed, 1);
    assert_eq!(added, 2);
}

#[test]
fn test_count_changes_no_diff() {
    let content = "line1\nline2\n";
    let (added, removed) = count_changes(content, content);

    assert_eq!(added, 0);
    assert_eq!(removed, 0);
}

#[test]
fn test_diff_callback_stats() {
    let callback = DiffCallback::new();
    assert_eq!(callback.stats.files_diffed, 0);
    assert_eq!(callback.stats.lines_added, 0);
    assert_eq!(callback.stats.lines_removed, 0);
}

#[test]
fn test_composite_callback_creation() {
    let composite = CompositeCallback::<DiffCallback>::new();
    assert!(composite.callbacks.is_empty());
}

#[test]
fn test_composite_callback_with_diff() {
    let mut composite = CompositeCallback::new();
    composite.add_callback(DiffCallback::new());
    assert_eq!(composite.callbacks.len(), 1);
    let composite = composite.with_callback(DiffCallback::disabled());
    assert_eq!(composite.callbacks.len(), 2);
    assert!(!composite.callbacks[1].is_enabled());
}

#[test]
fn test_diff_with_empty_content() {
    let (added, removed) = count_changes("", "new content\n");
    assert_eq!(added, 1);
    assert_eq!(removed, 0);

    let (added, removed) = count_changes("old content\n", "");
    assert_eq!(added, 0);
    assert_eq!(removed, 1);
}

#[test]
fn test_diff_multiline() {
    let before = "header\nline1\nline2\nline3\nfooter\n";
    let after = "header\nline1\nMODIFIED\nline3\nfooter\n";

    let diff = generate_diff(before, after, 1);

    assert!(diff.contains("-line2"));
    assert!(diff.contains("+MODIFIED"));
    assert!(diff.contains(" line1"));
    assert!(diff.contains(" line3"));
}

#[test]
fn diff_records_stats() {
    let mut callback = DiffCallback::new();
    callback.record_diff(3, 2);
    callback.record_diff(1, 0);
    assert_eq!(callback.stats.files_diffed, 2);
    assert_eq!(callback.stats.lines_added, 4);
    assert_eq!(callback.stats.lines_removed, 2);
}

#[test]
fn diff_context_lines_limit_the_context() {
    let before = "header\nline1\nline2\nline3\nfooter\n";
    let after = "header\nline1\nMODIFIED\nline3\nfooter\n";
    let d = generate_diff(before, after, 1);
    assert!(d.starts_with("--- before\n+++ after\n"));
    assert!(d.contains(" line1\n-line2\n+MODIFIED\n line3\n"));
    assert!(!d.contains(" header"));
    assert!(!d.contains(" footer"));
    let wide = generate_diff(before, after, 3);
    assert!(wide.contains(" header"));
    assert!(wide.contains(" footer"));
}

#[test]
fn diff_huge_context_is_capped() {
    assert_eq!(radius_of(3), 3);
    assert_eq!(radius_of(usize::MAX), usize::MAX / 2);
    assert_eq!(generate_diff("a\n", "a\n", usize::MAX), "--- before\n+++ after\n");
    let wide = generate_diff("a\nb\nc\n", "a\nx\nc\n", usize::MAX);
    assert_eq!(wide, generate_diff("a\nb\nc\n", "a\nx\nc\n", usize::MAX / 2));
    assert!(wide.contains("-b"));
    assert!(wide.contains("+x"));
}
