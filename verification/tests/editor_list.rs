use devtui::editor::db::{Article, Status};
use devtui::editor::list::{date_cell, deploy_status_lines, title_cell, ListAction, ListEffect, ListState};
use devtui::editor::ops::DeployPreview;
use devtui::engine::config::BlogConfig;
use devtui::testutil::test_blog_config;
use devtui::vim::Key;
use std::sync::Arc;

fn test_config() -> BlogConfig {
    let mut cfg = test_blog_config();
    cfg.theme = Some("paper".into());
    cfg
}

fn make_list_view() -> ListState {
    ListState::new(vec![], &test_config(), vec![])
}

fn article(id: i64, status: Status, pinned: bool) -> Article {
    Article {
        id,
        title: format!("Post {id}"),
        slug: format!("post-{id}"),
        content: String::new(),
        status,
        language: "en".into(),
        pinned,
        tags: vec![],
        published_at: None,
        created_at: "2026-01-01".into(),
        updated_at: "2026-01-01".into(),
    }
}

fn view_with_articles(n: i64) -> ListState {
    let articles = (1..=n).map(|i| article(i, Status::Draft, false)).collect();
    ListState::new(
        articles,
        &test_config(),
        vec!["paper".into(), "ink".into(), "mono".into()],
    )
}

#[test]
fn poll_build_result_clears_building_flag_on_success() {
    let mut view = make_list_view();
    view.building = true;
    *view.build_result.lock().unwrap() = Some(Ok("Built 1 articles in 0.1s".into()));
    view.poll_build_result(&mut vec![]);
    assert!(!view.building);
}

#[test]
fn poll_build_result_sets_flash_on_success() {
    let mut view = make_list_view();
    view.building = true;
    *view.build_result.lock().unwrap() = Some(Ok("Built 3 articles in 0.5s".into()));
    view.poll_build_result(&mut vec![]);
    let (msg, _) = view.flash.as_ref().unwrap();
    assert_eq!(msg, "Built 3 articles in 0.5s");
}

#[test]
fn poll_build_result_stores_error_on_failure() {
    let mut view = make_list_view();
    view.building = true;
    *view.build_result.lock().unwrap() = Some(Err("engine exploded\ndetails here".into()));
    view.poll_build_result(&mut vec![]);
    assert!(!view.building);
    assert_eq!(view.last_error.as_deref(), Some("engine exploded\ndetails here"));
}

#[test]
fn poll_build_result_shows_first_error_line_in_flash() {
    let mut view = make_list_view();
    view.building = true;
    *view.build_result.lock().unwrap() = Some(Err("first line\nsecond line\nthird".into()));
    view.poll_build_result(&mut vec![]);
    let (msg, _) = view.flash.as_ref().unwrap();
    assert_eq!(msg, "Build failed: first line");
}

#[test]
fn start_build_guards_against_double_build() {
    let mut view = make_list_view();
    view.building = true;
    let slot_before = Arc::strong_count(&view.build_result);
    let mut effects = vec![];
    view.start_build(&mut effects);
    // No new build asked for, Arc count unchanged
    assert_eq!(Arc::strong_count(&view.build_result), slot_before);
    assert!(effects.is_empty());
}

#[test]
fn poll_build_result_is_noop_when_no_result() {
    let mut view = make_list_view();
    view.building = true;
    view.poll_build_result(&mut vec![]);
    // building flag unchanged, no flash set
    assert!(view.building);
    assert!(view.flash.is_none());
}

#[test]
fn poll_build_result_sets_last_built_on_success() {
    let mut view = make_list_view();
    view.building = true;
    *view.build_result.lock().unwrap() = Some(Ok("Built 1 articles in 0.1s".into()));
    view.poll_build_result(&mut vec![]);
    assert!(view.last_built.is_some());
}

#[test]
fn stop_serve_clears_serving_flag() {
    let mut view = make_list_view();
    view.serving = true;
    view.stop_serve(&mut vec![]);
    assert!(!view.serving);
}

#[test]
fn poll_build_result_spawns_serve_when_serve_after_build() {
    let mut view = make_list_view();
    view.building = true;
    view.serve_after_build = true;
    *view.build_result.lock().unwrap() = Some(Ok("Built 1 articles in 0.1s".into()));
    let mut effects = vec![];
    view.poll_build_result(&mut effects);
    assert!(view.serving);
    assert!(!view.serve_after_build);
    assert!(matches!(effects.as_slice(), [ListEffect::SpawnServe]));
    // Clean up the spawned server
    view.stop_serve(&mut effects);
}

#[test]
fn poll_build_result_clears_serve_after_build_on_error() {
    let mut view = make_list_view();
    view.building = true;
    view.serve_after_build = true;
    *view.build_result.lock().unwrap() = Some(Err("build failed".into()));
    view.poll_build_result(&mut vec![]);
    assert!(!view.serving);
    assert!(!view.serve_after_build);
}

#[test]
fn stop_serve_is_noop_when_not_serving() {
    let mut view = make_list_view();
    let mut effects = vec![];
    view.stop_serve(&mut effects);
    assert!(!view.serving);
    assert!(effects.is_empty());
}

// --- further behaviour of the list ---

#[test]
fn serving_flash_names_the_port() {
    let mut view = make_list_view();
    view.serve_after_build = true;
    view.on_build_result(Ok("Built".into()), &mut vec![]);
    assert_eq!(view.flash.as_ref().unwrap().0, "Serving at http://localhost:8000");
    assert_eq!(view.status_label(), "serving :8000");
}

#[test]
fn new_selects_first_article_and_finds_theme() {
    let view = view_with_articles(2);
    assert_eq!(view.selected, Some(0));
    assert_eq!(view.current_theme, "paper");
    assert_eq!(view.theme_index, 0);
    let empty = ListState::new(vec![], &test_blog_config(), vec!["ink".into()]);
    assert_eq!(empty.selected, None);
    assert_eq!(empty.current_theme, "paper");
}

#[test]
fn selection_moves_within_bounds() {
    let mut view = view_with_articles(3);
    let mut effects = vec![];
    view.handle_key(Key::Char('k'), false, &mut effects);
    assert_eq!(view.selected, Some(0));
    view.handle_key(Key::Char('j'), false, &mut effects);
    view.handle_key(Key::Down, false, &mut effects);
    view.handle_key(Key::Down, false, &mut effects);
    assert_eq!(view.selected, Some(2));
    view.handle_key(Key::Char('g'), false, &mut effects);
    assert_eq!(view.selected, Some(0));
    view.handle_key(Key::Char('G'), false, &mut effects);
    assert_eq!(view.selected, Some(2));
    assert!(effects.is_empty());
}

#[test]
fn enter_edits_selected_article_and_n_asks_for_new() {
    let mut view = view_with_articles(2);
    let mut effects = vec![];
    view.handle_key(Key::Down, false, &mut effects);
    assert_eq!(view.handle_key(Key::Enter, false, &mut effects), Some(ListAction::Edit(2)));
    assert_eq!(view.handle_key(Key::Char('n'), false, &mut effects), Some(ListAction::New));
}

#[test]
fn quit_stops_a_running_server() {
    let mut view = make_list_view();
    view.serving = true;
    let mut effects = vec![];
    assert_eq!(view.handle_key(Key::Char('q'), false, &mut effects), Some(ListAction::Quit));
    assert!(!view.serving);
    assert!(matches!(effects.as_slice(), [ListEffect::StopServe]));
    assert_eq!(view.handle_key(Key::Char('c'), true, &mut vec![]), Some(ListAction::Quit));
    assert_eq!(view.handle_key(Key::Char('c'), false, &mut vec![]), None);
}

#[test]
fn publish_and_pin_follow_article_state() {
    let mut view = ListState::new(
        vec![article(7, Status::Published, true)],
        &test_config(),
        vec![],
    );
    let mut effects = vec![];
    view.handle_key(Key::Char('p'), false, &mut effects);
    view.handle_key(Key::Char('i'), false, &mut effects);
    assert!(matches!(effects.as_slice(), [ListEffect::Unpublish(7), ListEffect::Unpin(7)]));
    let mut more = vec![];
    view.after_change(&effects[0], &mut more);
    assert_eq!(view.flash.as_ref().unwrap().0, "Unpublished");
    assert!(matches!(more.as_slice(), [ListEffect::Refresh(true)]));
}

#[test]
fn delete_asks_for_confirmation() {
    let mut view = view_with_articles(1);
    let mut effects = vec![];
    view.handle_key(Key::Char('d'), false, &mut effects);
    assert_eq!(view.confirm_delete, Some(1));
    assert!(effects.is_empty());
    view.handle_key(Key::Char('y'), false, &mut effects);
    assert_eq!(view.confirm_delete, None);
    assert!(matches!(effects.as_slice(), [ListEffect::Delete(1)]));

    let mut other = vec![];
    view.handle_key(Key::Char('d'), false, &mut other);
    view.handle_key(Key::Char('x'), false, &mut other);
    assert_eq!(view.confirm_delete, None);
    assert!(other.is_empty());
}

#[test]
fn search_typing_refreshes_from_top() {
    let mut view = view_with_articles(2);
    let mut effects = vec![];
    view.handle_key(Key::Char('/'), false, &mut effects);
    assert!(view.search_active);
    view.handle_key(Key::Char('r'), false, &mut effects);
    view.handle_key(Key::Char('s'), false, &mut effects);
    view.handle_key(Key::Backspace, false, &mut effects);
    assert_eq!(view.search_query, "r");
    assert_eq!(view.search_filter(), Some("r".to_string()));
    view.handle_key(Key::Esc, false, &mut effects);
    assert!(!view.search_active);
    assert_eq!(view.search_filter(), None);
    assert!(matches!(
        effects.as_slice(),
        [ListEffect::Refresh(false), ListEffect::Refresh(false), ListEffect::Refresh(false), ListEffect::Refresh(true)]
    ));
}

#[test]
fn apply_articles_keeps_or_resets_selection() {
    let mut view = view_with_articles(5);
    view.selected = Some(4);
    view.apply_articles((1..=3).map(|i| article(i, Status::Draft, false)).collect(), true);
    assert_eq!(view.selected, Some(2));
    view.apply_articles((1..=3).map(|i| article(i, Status::Draft, false)).collect(), false);
    assert_eq!(view.selected, Some(0));
    view.apply_articles(vec![], true);
    assert_eq!(view.selected, None);
}

#[test]
fn theme_picker_applies_a_different_theme() {
    let mut view = view_with_articles(1);
    let mut effects = vec![];
    view.handle_key(Key::Char('t'), false, &mut effects);
    assert!(view.show_theme_picker);
    view.handle_key(Key::Enter, false, &mut effects);
    assert!(!view.show_theme_picker);
    assert!(effects.is_empty());
    view.handle_key(Key::Char('t'), false, &mut effects);
    view.handle_key(Key::Char('j'), false, &mut effects);
    view.handle_key(Key::Char('j'), false, &mut effects);
    view.handle_key(Key::Char('j'), false, &mut effects);
    assert_eq!(view.theme_index, 2);
    view.handle_key(Key::Enter, false, &mut effects);
    match effects.as_slice() {
        [ListEffect::ApplyTheme(t)] => assert_eq!(t, "mono"),
        _ => panic!("expected a theme change"),
    }
    view.serving = true;
    let mut restart = vec![];
    view.after_theme("mono".into(), Ok(()), &mut restart);
    assert_eq!(view.current_theme, "mono");
    assert!(matches!(restart.as_slice(), [ListEffect::StopServe, ListEffect::SpawnBuild]));
    assert!(view.serve_after_build);
    view.after_theme("ink".into(), Err("no such theme".into()), &mut vec![]);
    assert_eq!(view.flash.as_ref().unwrap().0, "Theme error: no such theme");
    assert_eq!(view.current_theme, "mono");
}

#[test]
fn deploy_then_push_flow() {
    let mut view = make_list_view();
    let mut effects = vec![];
    view.handle_key(Key::Char('D'), false, &mut effects);
    assert!(view.deploying);
    assert!(matches!(effects.as_slice(), [ListEffect::SpawnDeploy]));
    view.on_deploy_result(Ok(DeployPreview { diff: String::new(), deploy_dir: "/d".into() }));
    assert!(!view.deploying);
    assert_eq!(view.flash.as_ref().unwrap().0, "Nothing to deploy");

    *view.deploy_result.lock().unwrap() =
        Some(Ok(DeployPreview { diff: "+ a.html".into(), deploy_dir: "/d".into() }));
    view.poll_deploy_result();
    assert!(view.deploy_preview.is_some());
    assert!(view.flash.is_none());
    let mut push = vec![];
    view.handle_key(Key::Char('y'), false, &mut push);
    assert!(view.pushing);
    assert!(view.deploy_preview.is_none());
    match push.as_slice() {
        [ListEffect::SpawnPush(dir)] => assert_eq!(dir, "/d"),
        _ => panic!("expected a push"),
    }
    *view.push_result.lock().unwrap() = Some(Err("rejected\nremote said no".into()));
    view.poll_push_result();
    assert!(!view.pushing);
    assert_eq!(view.flash.as_ref().unwrap().0, "Push failed: rejected");
}

#[test]
fn overlays_take_keys_first() {
    let mut view = view_with_articles(2);
    view.last_error = Some("boom".into());
    let mut effects = vec![];
    view.handle_key(Key::Char('e'), false, &mut effects);
    assert!(view.show_error);
    assert_eq!(view.handle_key(Key::Char('q'), false, &mut effects), None);
    view.handle_key(Key::Esc, false, &mut effects);
    assert!(!view.show_error);
    view.handle_key(Key::Char('?'), false, &mut effects);
    assert!(view.show_help);
    assert_eq!(view.handle_key(Key::Char('n'), false, &mut effects), None);
    assert!(!view.show_help);
    view.deploy_status = Some("pushed".into());
    view.handle_key(Key::Char('j'), false, &mut effects);
    assert!(view.deploy_status.is_none());
    assert_eq!(view.selected, Some(0));
}

#[test]
fn open_starts_server_then_browser() {
    let mut view = make_list_view();
    let mut effects = vec![];
    view.handle_key(Key::Char('o'), false, &mut effects);
    assert!(matches!(effects.as_slice(), [ListEffect::SpawnBuild, ListEffect::OpenBrowser]));
    assert!(view.serve_after_build);
    assert_eq!(view.status_label(), "building...");
}

#[test]
fn deploy_status_lines_labels_table_rows_and_indents_the_rest() {
    let status = "Pushed abc123\n\n│ id │ Production │ main │ abc123 │ https://x.pages.dev │ 1 minute ago │\nplain\n";
    let lines = deploy_status_lines(status);
    assert_eq!(
        lines,
        vec![
            " Pushed abc123".to_string(),
            " Environment: Production".to_string(),
            " Branch:      main".to_string(),
            " Commit:      abc123".to_string(),
            " URL:         https://x.pages.dev".to_string(),
            " Deployed:    1 minute ago".to_string(),
            " plain".to_string(),
        ]
    );
}

#[test]
fn deploy_status_lines_keeps_short_table_rows_as_text() {
    let lines = deploy_status_lines("│ a │ b │");
    assert_eq!(lines, vec![" │ a │ b │".to_string()]);
    assert!(deploy_status_lines("").is_empty());
}

#[test]
fn row_cells_cut_dates_and_long_titles() {
    let mut a = article(1, Status::Draft, false);
    a.created_at = "2026-04-01 10:00:00".to_string();
    a.published_at = None;
    assert_eq!(date_cell(&a), " 2026-04-01");
    a.published_at = Some("2025-12-31T23:59".to_string());
    assert_eq!(date_cell(&a), " 2025-12-31");
    a.published_at = Some("short".to_string());
    assert_eq!(date_cell(&a), "           ");
    assert_eq!(title_cell("Hello"), " Hello");
    let long = "x".repeat(61);
    assert_eq!(title_cell(&long), format!(" {}...", "x".repeat(57)));
    let sixty = "y".repeat(60);
    assert_eq!(title_cell(&sixty), format!(" {sixty}"));
}
