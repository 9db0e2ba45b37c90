use sift::index::db::{GcSummary, SourceSummary};
use sift::search::{FileResult, ResultSource, SearchMode};
use sift::tui::indexes::{DeleteOutcome, IndexesView, PruneOutcome};
use sift::tui::search::{SearchStep, SearchView, DEBOUNCE_MS};
use sift::tui::{App, AppAction, Key, Screen};

fn file(id: i64) -> FileResult {
    FileResult {
        file_id: id,
        file_path: format!("/docs/{}.md", id),
        score_bits: 1.0f32.to_bits(),
        snippet: "text".to_string(),
        source: ResultSource::Lexical,
    }
}

fn source(id: i64, path: &str, label: Option<&str>) -> SourceSummary {
    SourceSummary {
        id,
        path: path.to_string(),
        label: label.map(|l| l.to_string()),
        indexed_at: "2024-01-01T00:00:00Z".to_string(),
        file_count: 1,
        total_size_bytes: 10,
    }
}

fn typed(view: &mut SearchView<()>, text: &str, now: u64) {
    for c in text.chars() {
        view.insert_char(c, now);
    }
}

#[test]
fn typing_and_editing_the_query() {
    let mut v: SearchView<()> = SearchView::new();
    typed(&mut v, "mesh", 0);
    assert_eq!(v.query(), "mesh");
    assert_eq!(v.cursor_pos(), 4);
    v.move_cursor_left();
    v.move_cursor_left();
    v.insert_char('X', 5);
    assert_eq!(v.query(), "meXsh");
    assert_eq!(v.cursor_pos(), 3);
    v.delete_char(6);
    assert_eq!(v.query(), "mesh");
    assert_eq!(v.cursor_pos(), 2);
    v.move_cursor_home();
    v.delete_char(7);
    assert_eq!(v.query(), "mesh");
    assert_eq!(v.cursor_pos(), 0);
    v.move_cursor_end();
    assert_eq!(v.cursor_pos(), 4);
    v.move_cursor_right();
    assert_eq!(v.cursor_pos(), 4);
}

#[test]
fn searches_wait_for_the_debounce() {
    let mut v: SearchView<()> = SearchView::new();
    assert!(!v.should_search(10_000));
    v.insert_char('a', 1000);
    assert!(!v.should_search(1000 + DEBOUNCE_MS - 1));
    assert!(v.should_search(1000 + DEBOUNCE_MS));
    assert!(!v.should_search(500));
    // hybrid mode without a model loaded
    assert_eq!(v.begin_search(), SearchStep::LoadModel);
    assert!(!v.should_search(5000));
}

#[test]
fn mode_cycles_and_schedules() {
    let mut v: SearchView<()> = SearchView::new();
    assert_eq!(v.mode(), SearchMode::Hybrid);
    v.toggle_mode(0);
    assert_eq!(v.mode(), SearchMode::LexicalOnly);
    v.toggle_mode(0);
    assert_eq!(v.mode(), SearchMode::SemanticOnly);
    v.toggle_mode(0);
    assert_eq!(v.mode(), SearchMode::Hybrid);
    assert!(v.should_search(DEBOUNCE_MS));
}

#[test]
fn blank_query_clears_results() {
    let mut v: SearchView<()> = SearchView::new();
    typed(&mut v, "x", 0);
    v.finish_search(vec![file(1), file(2)], 50);
    assert_eq!(v.selected(), Some(0));
    v.delete_char(1);
    v.insert_char(' ', 2);
    assert_eq!(v.begin_search(), SearchStep::Cleared);
    assert!(v.results().is_empty());
    assert_eq!(v.selected(), None);
}

#[test]
fn model_loading_steps() {
    let mut v: SearchView<u32> = SearchView::new();
    typed_u32(&mut v, "istio");
    assert_eq!(v.begin_search(), SearchStep::LoadModel);
    v.model_failed("no network");
    assert_eq!(v.error().map(|e| e.as_str()), Some("Failed to load embedding model: no network"));
    assert_eq!(v.begin_search(), SearchStep::LoadModel);
    assert!(v.error().is_none());
    v.set_model(7);
    assert_eq!(v.model(), Some(&7));
    assert_eq!(v.begin_search(), SearchStep::Run);
}

fn typed_u32(view: &mut SearchView<u32>, text: &str) {
    for c in text.chars() {
        view.insert_char(c, 0);
    }
}

#[test]
fn results_are_limited_and_navigable() {
    let mut v: SearchView<()> = SearchView::new();
    v.finish_search(vec![file(1), file(2), file(3)], 2);
    assert_eq!(v.results().len(), 2);
    assert_eq!(v.selected(), Some(0));
    v.previous_result();
    assert_eq!(v.selected(), Some(0));
    v.next_result();
    assert_eq!(v.selected(), Some(1));
    v.next_result();
    assert_eq!(v.selected(), Some(1));
    assert_eq!(v.selected_path(), Some("/docs/2.md".to_string()));
    v.finish_search(vec![], 2);
    assert_eq!(v.selected(), None);
    assert_eq!(v.selected_path(), None);
}

#[test]
fn cursor_on_a_multibyte_character_is_reported_unsafe() {
    let mut v: SearchView<()> = SearchView::new();
    v.insert_char('é', 0);
    assert_eq!(v.cursor_pos(), 1);
    assert!(!v.can_insert());
    assert!(v.can_delete());
}

#[test]
fn indexes_selection_and_deletion() {
    let mut x = IndexesView::new();
    x.refresh(vec![source(1, "/a", None), source(2, "/b", Some("bee")), source(3, "/c", None)]);
    assert_eq!(x.selected(), Some(0));
    x.next();
    x.next();
    x.next();
    assert_eq!(x.selected(), Some(2));
    x.request_delete();
    assert!(x.confirm_pending());
    assert_eq!(x.delete_target(), Some("/c".to_string()));
    x.confirm_delete(DeleteOutcome::Deleted(vec![source(1, "/a", None), source(2, "/b", Some("bee"))]));
    assert!(!x.confirm_pending());
    assert_eq!(x.selected(), Some(1));
    assert_eq!(x.message().0.map(|m| m.as_str()), Some("Deleted '/c'"));
    assert!(!x.message().1);

    x.request_delete();
    assert_eq!(x.delete_target(), Some("bee".to_string()));
    x.confirm_delete(DeleteOutcome::NotFound);
    assert_eq!(x.message().0.map(|m| m.as_str()), Some("Source 'bee' not found"));
    assert!(x.message().1);

    x.request_delete();
    x.confirm_delete(DeleteOutcome::Failed("disk I/O error".to_string()));
    assert_eq!(x.message().0.map(|m| m.as_str()), Some("Error deleting source: disk I/O error"));

    x.request_delete();
    x.confirm_delete(DeleteOutcome::Deleted(vec![]));
    assert_eq!(x.selected(), None);
    assert_eq!(x.source_count(), 0);
    x.clear_message();
    assert!(x.message().0.is_none());
}

#[test]
fn prune_messages() {
    let mut x = IndexesView::new();
    let srcs = vec![source(1, "/a", Some("notes"))];
    x.prune_all(PruneOutcome::Done(GcSummary { files_removed: 0, chunks_removed: 0 }, srcs));
    assert_eq!(x.message().0.map(|m| m.as_str()), Some("No files to remove"));
    let srcs = vec![source(1, "/a", Some("notes"))];
    x.prune_all(PruneOutcome::Done(GcSummary { files_removed: 3, chunks_removed: 12 }, srcs));
    assert_eq!(x.message().0.map(|m| m.as_str()), Some("Removed 3 files (12 chunks)"));
    x.prune_all(PruneOutcome::Failed("locked".to_string()));
    assert_eq!(x.message().0.map(|m| m.as_str()), Some("Error running prune: locked"));
    assert!(x.message().1);
    assert_eq!(x.selected_source(), Some((1, "notes".to_string())));
    x.prune_selected(2, vec![source(1, "/a", Some("notes"))]);
    assert_eq!(x.message().0.map(|m| m.as_str()), Some("Removed 2 files from 'notes'"));
    x.prune_selected(0, vec![source(1, "/a", Some("notes"))]);
    assert_eq!(x.message().0.map(|m| m.as_str()), Some("No files to remove from 'notes'"));
}

#[test]
fn keys_drive_the_app() {
    let mut app: App<()> = App::new();
    assert!(matches!(app.handle_key(Key::Char('m'), false, 0), AppAction::Nothing));
    assert!(matches!(app.handle_key(Key::Char('x'), true, 0), AppAction::Nothing));
    assert_eq!(app.search_view.query(), "mx");
    assert!(matches!(app.handle_key(Key::Char('i'), false, 0), AppAction::ShowIndexes));
    assert_eq!(app.view, Screen::Search);
    app.show_indexes(vec![source(1, "/a", None)]);
    assert_eq!(app.view, Screen::Indexes);
    assert!(matches!(app.handle_key(Key::Char('g'), false, 0), AppAction::PruneAll));
    assert!(matches!(app.handle_key(Key::Char('d'), false, 0), AppAction::Nothing));
    assert!(app.indexes_view.confirm_pending());
    assert!(matches!(app.handle_key(Key::Char('q'), false, 0), AppAction::Nothing));
    assert!(!app.should_quit);
    assert!(matches!(app.handle_key(Key::Char('Y'), false, 0), AppAction::ConfirmDelete));
    assert!(matches!(app.handle_key(Key::Esc, false, 0), AppAction::Nothing));
    assert!(!app.indexes_view.confirm_pending());
    app.handle_key(Key::Char('?'), false, 0);
    assert_eq!(app.view, Screen::Help);
    app.handle_key(Key::Char('x'), false, 0);
    assert_eq!(app.view, Screen::Help);
    app.handle_key(Key::Esc, false, 0);
    assert_eq!(app.view, Screen::Search);
    app.search_view.finish_search(vec![file(4)], 50);
    match app.handle_key(Key::Enter, false, 0) {
        AppAction::OpenEditor(p) => assert_eq!(p, "/docs/4.md"),
        other => panic!("unexpected {:?}", other),
    }
    app.handle_key(Key::Char('c'), true, 0);
    assert!(app.should_quit);
}

#[test]
fn key_safety_check() {
    let mut app: App<()> = App::new();
    app.handle_key(Key::Char('ü'), false, 0);
    assert!(!app.key_is_safe(Key::Char('a'), false));
    assert!(app.key_is_safe(Key::Char('q'), false));
    assert!(app.key_is_safe(Key::Backspace, false));
    app.handle_key(Key::Left, false, 0);
    assert!(app.key_is_safe(Key::Char('a'), false));
}

#[test]
fn drawn_selection_is_taken_back() {
    let mut x = IndexesView::new();
    x.refresh(vec![source(1, "/a", None), source(2, "/b", None)]);
    x.next();
    assert_eq!(x.selected(), Some(1));
    x.refresh(vec![source(1, "/a", None)]);
    assert_eq!(x.selected(), Some(1));
    x.set_selected(Some(0));
    assert_eq!(x.selected(), Some(0));
}
