use devtui::editor::preview::Color;
use devtui::editor::scribe::{
    annotations_of_items, build_check_prompt, extract_annotations, JsonItem, JsonScalar, parse_annotations, render_lines, render_lines_with_focus, Annotation,
    ScribeState, ScribeStatus, Tier,
};
use std::time::{Duration, Instant};

fn test_state() -> ScribeState {
    ScribeState::new()
}

#[test]
fn should_check_returns_false_when_not_active() {
    let mut state = test_state();
    state.content_invalidated();
    // Simulate elapsed time by setting idle_since in the past
    state.idle_since = Some(Instant::now() - Duration::from_secs(15));
    assert!(!state.should_check("hello", false));
}

#[test]
fn should_check_returns_false_when_pending() {
    let mut state = test_state();
    state.content_invalidated();
    state.idle_since = Some(Instant::now() - Duration::from_secs(15));
    state.pending = true;
    assert!(!state.should_check("hello", true));
}

#[test]
fn should_check_returns_false_before_idle_threshold() {
    let mut state = test_state();
    state.content_invalidated(); // just now
    assert!(!state.should_check("hello", true));
}

#[test]
fn should_check_returns_false_when_content_unchanged() {
    let mut state = test_state();
    state.last_sent = "hello".to_string();
    state.idle_since = Some(Instant::now() - Duration::from_secs(15));
    assert!(!state.should_check("hello", true));
}

#[test]
fn should_check_returns_true_when_idle_and_content_invalidated() {
    let mut state = test_state();
    state.idle_since = Some(Instant::now() - Duration::from_secs(15));
    assert!(state.should_check("new content", true));
}

// --- force_idle ---

#[test]
fn force_idle_makes_should_check_return_true() {
    let mut state = test_state();
    state.content_invalidated();
    // Normally would need 10s idle. force_idle bypasses.
    state.force_idle();
    assert!(state.should_check("any content", true));
}

// --- begin_check ---

#[test]
fn begin_check_transitions_to_pending() {
    let mut state = test_state();
    let request = state.begin_check("some content", 1);
    assert!(state.is_pending());
    assert_eq!(state.status, ScribeStatus::Checking);
    assert_eq!(request.content, "some content");
    assert_eq!(request.start_line, 1);
}

#[test]
fn begin_check_preserves_start_line() {
    let mut state = test_state();
    let request = state.begin_check("content", 42);
    assert_eq!(request.start_line, 42);
}

#[test]
fn begin_check_stores_last_sent() {
    let mut state = test_state();
    state.begin_check("sent content", 1);
    assert_eq!(state.last_sent, "sent content");
}

// --- handle_response ---

#[test]
fn handle_response_parses_annotations() {
    let mut state = test_state();
    state.pending = true;
    let response = r#"[{"line": 5, "tier": "error", "message": "typo"}]"#;
    state.handle_response(response);
    assert_eq!(state.annotations.len(), 1);
    assert_eq!(state.annotations[0].line, 5);
    assert_eq!(state.status, ScribeStatus::Idle);
    assert!(!state.is_pending());
    assert!(state.last_response.is_some());
    assert!(state.error.is_none());
}

// --- handle_error ---

#[test]
fn handle_error_stores_error_and_resets_pending() {
    let mut state = test_state();
    state.pending = true;
    state.handle_error("overmind crashed".to_string());
    assert!(!state.is_pending());
    assert_eq!(state.status, ScribeStatus::Error);
    assert_eq!(state.error.as_deref(), Some("overmind crashed"));
    assert!(state.annotations.is_empty());
}

// --- update_slow ---

#[test]
fn update_slow_sets_checking_slow_after_threshold() {
    let mut state = test_state();
    state.pending = true;
    state.check_started = Some(Instant::now() - Duration::from_secs(20));
    state.status = ScribeStatus::Checking;
    state.update_slow();
    assert_eq!(state.status, ScribeStatus::CheckingSlow);
}

#[test]
fn update_slow_does_nothing_before_threshold() {
    let mut state = test_state();
    state.pending = true;
    state.check_started = Some(Instant::now());
    state.status = ScribeStatus::Checking;
    state.update_slow();
    assert_eq!(state.status, ScribeStatus::Checking);
}

// --- poll_result ---

#[test]
fn poll_result_handles_success() {
    let mut state = test_state();
    state.pending = true;
    if let Ok(mut slot) = state.result.lock() {
        *slot = Some(Ok(r#"[{"line": 1, "tier": "hint", "message": "rephrase"}]"#.to_string()));
    }
    state.poll_result();
    assert!(!state.is_pending());
    assert_eq!(state.annotations.len(), 1);
    assert_eq!(state.status, ScribeStatus::Idle);
}

#[test]
fn poll_result_handles_error() {
    let mut state = test_state();
    state.pending = true;
    if let Ok(mut slot) = state.result.lock() {
        *slot = Some(Err("connection failed".to_string()));
    }
    state.poll_result();
    assert!(!state.is_pending());
    assert_eq!(state.status, ScribeStatus::Error);
    assert_eq!(state.error.as_deref(), Some("connection failed"));
}

#[test]
fn poll_result_is_noop_when_no_result() {
    let mut state = test_state();
    state.pending = true;
    state.status = ScribeStatus::Checking;
    state.poll_result();
    assert!(state.is_pending());
    assert_eq!(state.status, ScribeStatus::Checking);
}

#[test]
fn poll_result_drains_stale_results_when_not_pending() {
    let mut state = test_state();
    // Simulate a stale result from a previous check.
    if let Ok(mut slot) = state.result.lock() {
        *slot = Some(Ok(r#"[{"line": 1, "tier": "error", "message": "stale"}]"#.to_string()));
    }
    // Not pending, so poll_result should drain and ignore.
    state.poll_result();
    assert!(state.annotations.is_empty());
    assert_eq!(state.status, ScribeStatus::Idle);
    // Slot should be empty now.
    assert!(state.result.lock().unwrap().is_none());
}

// --- content_invalidated ---

#[test]
fn content_invalidated_resets_idle_timer_and_clears_display() {
    let mut state = test_state();
    state.annotations = vec![
        Annotation { line: 1, tier: Tier::Error, message: "old".into() },
    ];
    state.status_log = vec!["old log".to_string()];

    state.content_invalidated();

    assert!(state.idle_since.is_some());
    assert!(state.annotations.is_empty());
    assert!(state.status_log.is_empty());
}

// --- clear_display ---

#[test]
fn clear_display_resets_annotations_and_log() {
    let mut state = test_state();
    state.annotations = vec![
        Annotation { line: 1, tier: Tier::Error, message: "typo".into() },
    ];
    state.status_log = vec!["5 annotations (2.1s)".to_string()];
    state.error = Some("old error".to_string());
    state.last_sent = "old content".to_string();
    state.status = ScribeStatus::Error;

    state.clear_display();

    assert!(state.annotations.is_empty());
    assert!(state.status_log.is_empty());
    assert!(state.error.is_none());
    assert!(state.last_sent.is_empty());
    assert_eq!(state.status, ScribeStatus::Idle);
}

// --- push_log ---

#[test]
fn push_log_appends_messages() {
    let mut state = test_state();
    state.push_log("Starting session...");
    state.push_log("Sending...");
    assert_eq!(state.status_log.len(), 2);
    assert_eq!(state.status_log[0], "Starting session...");
    assert_eq!(state.status_log[1], "Sending...");
}

// --- status_log lifecycle ---

#[test]
fn begin_check_populates_status_log() {
    let mut state = test_state();
    state.begin_check("content", 1);
    assert!(!state.status_log.is_empty());
    assert!(state.status_log.iter().any(|l| l.contains("Checking")));
}

#[test]
fn handle_response_clears_log_and_shows_count() {
    let mut state = test_state();
    state.pending = true;
    state.check_started = Some(Instant::now());
    state.status_log = vec!["Sending...".to_string()];
    state.handle_response(r#"[{"line": 1, "tier": "error", "message": "fix"}]"#);
    assert_eq!(state.status_log.len(), 1);
    assert!(state.status_log[0].contains("1 annotation"));
}

#[test]
fn handle_error_clears_log_and_shows_error() {
    let mut state = test_state();
    state.pending = true;
    state.status_log = vec!["Sending...".to_string()];
    state.handle_error("timeout".to_string());
    assert_eq!(state.status_log.len(), 1);
    assert!(state.status_log[0].contains("Error: timeout"));
}

#[test]
fn build_check_prompt_includes_content_and_json_instruction() {
    let content = "# Hello\n\nSome text here.";
    let prompt = build_check_prompt(content, 1);
    assert!(prompt.contains("# Hello"));
    assert!(prompt.contains("Some text here."));
    assert!(prompt.contains("JSON"));
}

#[test]
fn build_check_prompt_instructs_to_skip_code_blocks() {
    let prompt = build_check_prompt("some text", 1);
    assert!(prompt.contains("code block"));
}

#[test]
fn build_check_prompt_includes_line_numbers_starting_from_offset() {
    let content = "first line\nsecond line\nthird line";
    let prompt = build_check_prompt(content, 20);
    assert!(prompt.contains("20: first line"));
    assert!(prompt.contains("21: second line"));
    assert!(prompt.contains("22: third line"));
}

#[test]
fn extract_annotations_from_noisy_response() {
    let response = r#"Here are the annotations I found:

[{"line": 3, "tier": "error", "message": "typo: 'teh' should be 'the'"}]

Let me know if you need more details."#;

    let annotations = extract_annotations(response);
    assert_eq!(annotations.len(), 1);
    assert_eq!(annotations[0].line, 3);
    assert_eq!(annotations[0].tier, Tier::Error);
}

#[test]
fn extract_annotations_returns_empty_on_no_json() {
    let annotations = extract_annotations("No issues found in this document.");
    assert!(annotations.is_empty());
}

#[test]
fn parse_annotations_sorts_errors_before_hints_on_same_line() {
    let json = r#"[
        {"line": 5, "tier": "hint", "message": "rephrase"},
        {"line": 5, "tier": "error", "message": "spelling"}
    ]"#;
    let annotations = parse_annotations(json);
    assert_eq!(annotations[0].tier, Tier::Error);
    assert_eq!(annotations[1].tier, Tier::Hint);
}

#[test]
fn parse_annotations_skips_unknown_tier() {
    let json = r#"[{"line": 1, "tier": "warning", "message": "x"}]"#;
    let annotations = parse_annotations(json);
    assert_eq!(annotations.len(), 0);
}

#[test]
fn parse_annotations_returns_empty_on_invalid_json() {
    let annotations = parse_annotations("not json at all");
    assert_eq!(annotations.len(), 0);
}

#[test]
fn parse_annotations_from_valid_json() {
    let json = r#"[
        {"line": 10, "tier": "hint", "message": "Consider rephrasing for clarity"},
        {"line": 3, "tier": "error", "message": "Misspelled: 'teh' → 'the'"},
        {"line": 7, "tier": "research", "message": "RFC 7231 supports this claim"}
    ]"#;

    let annotations = parse_annotations(json);

    assert_eq!(annotations.len(), 3);
    assert_eq!(annotations[0].line, 3);
    assert_eq!(annotations[0].tier, Tier::Error);
    assert_eq!(annotations[0].message, "Misspelled: 'teh' → 'the'");
    assert_eq!(annotations[1].line, 7);
    assert_eq!(annotations[1].tier, Tier::Research);
    assert_eq!(annotations[2].line, 10);
    assert_eq!(annotations[2].tier, Tier::Hint);
}


#[test]
fn handle_response_label_without_start_time() {
    let mut state = test_state();
    state.pending = true;
    state.handle_response(r#"[{"line": 1, "tier": "error", "message": "a"}, {"line": 2, "tier": "hint", "message": "b"}]"#);
    assert_eq!(state.status_log, vec!["2 annotations".to_string()]);
}

#[test]
fn handle_response_after_formats_elapsed_tenths() {
    let mut state = test_state();
    state.pending = true;
    state.handle_response_after("[]", Some(2_140_000_000));
    assert_eq!(state.status_log, vec!["0 annotations (2.1s)".to_string()]);
    state.handle_response_after("[]", Some(2_160_000_000));
    assert_eq!(state.status_log, vec!["0 annotations (2.2s)".to_string()]);
}

#[test]
fn should_check_after_uses_ten_second_threshold() {
    let mut state = test_state();
    state.idle_since = Some(Instant::now());
    assert!(!state.should_check_after("x", true, 9_999_999_999));
    assert!(state.should_check_after("x", true, 10_000_000_000));
}

#[test]
fn update_slow_after_uses_fifteen_second_threshold() {
    let mut state = test_state();
    state.pending = true;
    state.check_started = Some(Instant::now());
    state.status = ScribeStatus::Checking;
    state.update_slow_after(15_000_000_000);
    assert_eq!(state.status, ScribeStatus::Checking);
    state.update_slow_after(15_000_000_001);
    assert_eq!(state.status, ScribeStatus::CheckingSlow);
}

#[test]
fn parse_annotations_accepts_array_records_and_rejects_bad_lines() {
    let ok = parse_annotations(r#"[[4, "hint", "h"], {"line": 2, "tier": "error", "message": "e", "extra": true}]"#);
    assert_eq!(ok.len(), 2);
    assert_eq!(ok[0].line, 2);
    assert_eq!(ok[1].line, 4);
    assert!(parse_annotations(r#"[{"line": 70000, "tier": "error", "message": "x"}]"#).is_empty());
    assert!(parse_annotations(r#"[{"line": 1, "tier": "error"}]"#).is_empty());
    assert!(parse_annotations(r#"{"line": 1}"#).is_empty());
}

#[test]
fn sorting_keeps_order_of_equal_keys() {
    let json = r#"[
        {"line": 3, "tier": "hint", "message": "first"},
        {"line": 1, "tier": "research", "message": "r"},
        {"line": 3, "tier": "hint", "message": "second"},
        {"line": 3, "tier": "error", "message": "e"}
    ]"#;
    let a = parse_annotations(json);
    let msgs: Vec<&str> = a.iter().map(|x| x.message.as_str()).collect();
    assert_eq!(msgs, vec!["r", "e", "first", "second"]);
}

#[test]
fn all_annotations_merges_and_sorts() {
    let mut state = test_state();
    state.grammar_annotations = vec![Annotation { line: 5, tier: Tier::Hint, message: "g".into() }];
    state.annotations = vec![
        Annotation { line: 5, tier: Tier::Error, message: "l".into() },
        Annotation { line: 1, tier: Tier::Hint, message: "m".into() },
    ];
    let all = state.all_annotations();
    let msgs: Vec<&str> = all.iter().map(|x| x.message.as_str()).collect();
    assert_eq!(msgs, vec!["m", "l", "g"]);
}

#[test]
fn build_check_prompt_exact_numbering() {
    let prompt = build_check_prompt("a\nb", 9);
    assert!(prompt.ends_with("If clean, return []\n\n9: a\n10: b"));
}

#[test]
fn poll_grammar_takes_the_waiting_annotations() {
    let mut s = test_state();
    s.poll_grammar();
    assert!(s.grammar_annotations.is_empty());
    *s.grammar_result.lock().unwrap() = Some(vec![Annotation { line: 3, tier: Tier::Hint, message: "typo".to_string() }]);
    s.poll_grammar();
    assert_eq!(s.grammar_annotations.len(), 1);
    assert_eq!(s.grammar_annotations[0].line, 3);
    assert!(s.grammar_result.lock().unwrap().is_none());
}

#[test]
fn render_lines_with_focus_sorts_visible_first() {
    let annotations = vec![
        Annotation { line: 2, tier: Tier::Error, message: "off-screen error".into() },
        Annotation { line: 10, tier: Tier::Hint, message: "visible hint".into() },
        Annotation { line: 15, tier: Tier::Error, message: "visible error".into() },
        Annotation { line: 30, tier: Tier::Research, message: "off-screen ref".into() },
    ];

    let lines = render_lines_with_focus(&annotations, 8, 20);

    assert_eq!(lines.len(), 4);
    // Visible annotations (lines 10, 15) come first
    let text: Vec<String> = lines.iter().map(|l| l.text()).collect();
    assert!(text[0].contains("L10"));
    assert!(text[1].contains("L15"));
    // Off-screen annotations follow
    assert!(text[2].contains("L2"));
    assert!(text[3].contains("L30"));
}

#[test]
fn render_lines_with_focus_dims_offscreen_annotations() {
    let annotations = vec![
        Annotation { line: 5, tier: Tier::Error, message: "off-screen".into() },
        Annotation { line: 15, tier: Tier::Error, message: "visible".into() },
    ];

    let lines = render_lines_with_focus(&annotations, 10, 20);

    // Visible annotation (line 15) should not be dimmed
    let visible_line = &lines[0];
    let visible_styles: Vec<_> = visible_line.spans.iter().map(|s| s.style).collect();
    assert!(visible_styles.iter().any(|s| s.fg != Some(Color::DarkGray)));

    // Off-screen annotation (line 5) should be dimmed
    let dim_line = &lines[1];
    let dim_styles: Vec<_> = dim_line.spans.iter().map(|s| s.style).collect();
    assert!(dim_styles.iter().all(|s| s.fg == Some(Color::DarkGray)));
}

#[test]
fn render_lines_produces_annotated_output() {
    let annotations = vec![
        Annotation { line: 3, tier: Tier::Error, message: "Misspelled: 'teh'".into() },
        Annotation { line: 7, tier: Tier::Hint, message: "Consider rephrasing".into() },
        Annotation { line: 12, tier: Tier::Research, message: "See RFC 7231".into() },
    ];

    let lines = render_lines(&annotations);

    assert_eq!(lines.len(), 3);
    let text: Vec<String> = lines.iter().map(|l| l.text()).collect();
    assert_eq!(text[0], "✗ L3: Misspelled: 'teh'");
    assert_eq!(text[1], "💡 L7: Consider rephrasing");
    assert_eq!(text[2], "📎 L12: See RFC 7231");
}

#[test]
fn render_lines_returns_empty_for_no_annotations() {
    let lines = render_lines(&[]);
    assert!(lines.is_empty());
}

#[test]
fn render_lines_with_focus_keeps_order_within_a_line() {
    let annotations = vec![
        Annotation { line: 9, tier: Tier::Hint, message: "b".into() },
        Annotation { line: 4, tier: Tier::Error, message: "a".into() },
        Annotation { line: 9, tier: Tier::Error, message: "c".into() },
    ];
    let text: Vec<String> = render_lines_with_focus(&annotations, 1, 100).iter().map(|l| l.text()).collect();
    assert_eq!(text, vec!["✗ L4: a", "💡 L9: b", "✗ L9: c"]);
}

#[test]
fn check_grammar_runs_only_on_changed_text() {
    let mut s = test_state();
    assert!(s.check_grammar("one"));
    assert_eq!(s.grammar_last_checked, "one");
    assert!(!s.check_grammar("one"));
    assert!(s.check_grammar("two"));
    assert_eq!(s.grammar_last_checked, "two");
}

fn record(line: u64, tier: &str, message: &str) -> JsonItem {
    JsonItem::Object(vec![
        ("line".to_string(), JsonScalar::Int(line)),
        ("message".to_string(), JsonScalar::Text(message.to_string())),
        ("tier".to_string(), JsonScalar::Text(tier.to_string())),
    ])
}

#[test]
fn annotations_of_items_keeps_known_tiers_sorted() {
    let items = vec![
        record(5, "hint", "rephrase"),
        record(2, "warning", "dropped"),
        JsonItem::Array(vec![
            JsonScalar::Int(5),
            JsonScalar::Text("error".to_string()),
            JsonScalar::Text("spelling".to_string()),
        ]),
        record(1, "research", "cite"),
    ];
    let anns = annotations_of_items(&items);
    assert_eq!(
        anns,
        vec![
            Annotation { line: 1, tier: Tier::Research, message: "cite".to_string() },
            Annotation { line: 5, tier: Tier::Error, message: "spelling".to_string() },
            Annotation { line: 5, tier: Tier::Hint, message: "rephrase".to_string() },
        ]
    );
}

#[test]
fn annotations_of_items_is_empty_when_one_item_is_not_a_record() {
    let items = vec![record(1, "error", "typo"), JsonItem::Other];
    assert!(annotations_of_items(&items).is_empty());
    let too_big = vec![record(70_000, "error", "typo")];
    assert!(annotations_of_items(&too_big).is_empty());
}

#[test]
fn handle_response_after_a_started_check_reports_the_count() {
    let mut s = test_state();
    s.begin_check("c", 1);
    s.handle_response(r#"[{"line": 5, "tier": "error", "message": "typo"}]"#);
    assert_eq!(s.status_log.len(), 1);
    assert!(s.status_log[0].starts_with("1 annotations ("));
}
