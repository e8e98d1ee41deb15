use dark_horse::browser_app::tabs::BrowserTab;
use dark_horse::browser_app::{BrowserApp, Effect, NewTabChoice, UiAction};
use dark_horse::user_data::UserData;

fn fresh() -> BrowserApp {
    BrowserApp::new(UserData::default(), None)
}

fn ids(app: &BrowserApp) -> Vec<u64> {
    app.tabs.iter().map(|t| t.id).collect()
}

#[test]
fn new_browser_opens_duckduckgo() {
    let app = fresh();
    assert_eq!(app.tabs.len(), 1);
    assert_eq!(app.active_tab, 0);
    assert_eq!(app.next_tab_id, 2);
    let tab = &app.tabs[0];
    assert_eq!(tab.id, 1);
    assert_eq!(tab.address, "https://duckduckgo.com");
    assert_eq!(tab.pending_url.as_deref(), Some("https://duckduckgo.com"));
    assert_eq!(tab.status_message, "Opening DuckDuckGo…");
    assert!(!tab.is_new_tab_chooser);
    assert!(!tab.has_webview);
    assert!(app.editing_bookmark.is_none());
}

#[test]
fn load_error_shows_in_first_tab() {
    let app = BrowserApp::new(UserData::default(), Some("broken".to_owned()));
    assert_eq!(app.tabs[0].status_message, "broken");
}

#[test]
fn add_tab_appends_chooser_and_shows_it() {
    let mut app = fresh();
    app.add_tab();
    assert_eq!(ids(&app), vec![1, 2]);
    assert_eq!(app.active_tab, 1);
    assert_eq!(app.next_tab_id, 3);
    let tab = &app.tabs[1];
    assert!(tab.is_new_tab_chooser);
    assert_eq!(tab.address, "");
    assert_eq!(tab.status_message, "Choose what to open in this tab.");
    assert!(tab.pending_url.is_none());
}

#[test]
fn closing_only_tab_leaves_a_new_tab() {
    let mut app = fresh();
    app.close_tab(0);
    assert_eq!(ids(&app), vec![2]);
    assert_eq!(app.active_tab, 0);
    assert_eq!(app.next_tab_id, 3);
    assert!(app.tabs[0].is_new_tab_chooser);
}

#[test]
fn closing_tabs_keeps_shown_tab_sensible() {
    let mut app = fresh();
    app.add_tab();
    app.add_tab();
    app.add_tab();
    assert_eq!(ids(&app), vec![1, 2, 3, 4]);
    // Shown tab after the closed one moves down.
    app.active_tab = 3;
    app.close_tab(1);
    assert_eq!(ids(&app), vec![1, 3, 4]);
    assert_eq!(app.active_tab, 2);
    // Closing the shown last tab shows the new last tab.
    app.close_tab(2);
    assert_eq!(ids(&app), vec![1, 3]);
    assert_eq!(app.active_tab, 1);
    // Closing the shown tab in the middle shows the one that took its place.
    app.add_tab();
    app.active_tab = 1;
    app.close_tab(1);
    assert_eq!(ids(&app), vec![1, 5]);
    assert_eq!(app.active_tab, 1);
    // Closing a tab after the shown one leaves it shown.
    app.active_tab = 0;
    app.close_tab(1);
    assert_eq!(ids(&app), vec![1]);
    assert_eq!(app.active_tab, 0);
}

#[test]
fn tab_labels_name_the_host() {
    let mut t = BrowserTab::new_tab(7);
    assert_eq!(t.label(), "New tab");
    t.address = "https://example.com/a/b?c#d".to_owned();
    assert_eq!(t.label(), "example.com");
    t.address = "http://localhost:8765/x".to_owned();
    assert_eq!(t.label(), "localhost:8765");
    t.address = "ftp://x".to_owned();
    assert_eq!(t.label(), "ftp:");
    t.address = "https://".to_owned();
    assert_eq!(t.label(), "New tab");
    t.address = "HTTPS://Example.com".to_owned();
    assert_eq!(t.label(), "HTTPS:");
}

#[test]
fn with_url_waits_for_page_view() {
    let t = BrowserTab::with_url(3, "https://a.org".to_owned(), "hi".to_owned());
    assert_eq!(t.id, 3);
    assert_eq!(t.address, "https://a.org");
    assert_eq!(t.pending_url.as_deref(), Some("https://a.org"));
    assert_eq!(t.status_message, "hi");
    assert!(!t.is_new_tab_chooser && !t.has_webview && !t.webview_visible);
}

#[test]
fn navigate_sets_address_and_pending_load() {
    let mut app = fresh();
    app.add_tab();
    let e = app.navigate(1, "  example.org ");
    assert!(matches!(e, Effect::Nothing));
    let tab = &app.tabs[1];
    assert_eq!(tab.address, "https://example.org");
    assert_eq!(tab.pending_url.as_deref(), Some("https://example.org"));
    assert_eq!(tab.status_message, "Loading https://example.org…");
    assert!(!tab.is_new_tab_chooser);
}

#[test]
fn navigate_with_page_view_asks_to_load() {
    let mut app = fresh();
    app.tabs[0].has_webview = true;
    app.tabs[0].pending_url = None;
    match app.navigate(0, "rust book") {
        Effect::LoadUrl { tab_index, url } => {
            assert_eq!(tab_index, 0);
            assert_eq!(url, "https://duckduckgo.com/?q=rust+book");
        }
        _ => panic!("expected a load"),
    }
    assert!(app.tabs[0].pending_url.is_none());
    app.load_failed(0, "boom");
    assert_eq!(app.tabs[0].status_message, "Could not open address: boom");
}

#[test]
fn navigate_refused_address_only_sets_status() {
    let mut app = fresh();
    let before = app.tabs[0].address.clone();
    let e = app.navigate(0, "ftp://x");
    assert!(matches!(e, Effect::Nothing));
    assert_eq!(app.tabs[0].address, before);
    assert_eq!(app.tabs[0].status_message, "Only HTTP and HTTPS addresses are supported.");
}

#[test]
fn history_outcomes_show_in_status() {
    let mut app = fresh();
    app.go_back_in_history(Ok(()));
    assert_eq!(app.tabs[0].status_message, "Going back…");
    app.go_back_in_history(Err("no".to_owned()));
    assert_eq!(app.tabs[0].status_message, "Could not go back: no");
    app.go_forward_in_history(Ok(()));
    assert_eq!(app.tabs[0].status_message, "Going forward…");
    app.go_forward_in_history(Err("no".to_owned()));
    assert_eq!(app.tabs[0].status_message, "Could not go forward: no");
    app.reload_page(Ok(()));
    assert_eq!(app.tabs[0].status_message, "Reloading https://duckduckgo.com…");
    app.reload_page(Err("x".to_owned()));
    assert_eq!(app.tabs[0].status_message, "Could not reload page: x");
}

#[test]
fn actions_route_to_operations() {
    let mut app = fresh();
    app.apply_action(UiAction::NewTab);
    assert_eq!(app.tabs.len(), 2);
    app.apply_action(UiAction::SelectTab(0));
    assert_eq!(app.active_tab, 0);
    app.apply_action(UiAction::SelectTab(9));
    assert_eq!(app.active_tab, 0);
    app.apply_action(UiAction::ChooseNewTabPage(1, NewTabChoice::DuckDuckGo));
    assert_eq!(app.tabs[1].address, "https://duckduckgo.com");
    assert!(!app.tabs[1].is_new_tab_chooser);
    app.apply_action(UiAction::ChooseNewTabPage(1, NewTabChoice::Bookmark("https://a.b".to_owned())));
    assert_eq!(app.tabs[1].address, "https://a.b");
    app.apply_action(UiAction::OpenBookmark(0, "https://c.d".to_owned()));
    assert_eq!(app.tabs[0].address, "https://c.d");
    app.apply_action(UiAction::Navigate(0, "e.f".to_owned()));
    assert_eq!(app.tabs[0].address, "https://e.f");
    app.apply_action(UiAction::Navigate(5, "e.f".to_owned()));
    app.apply_action(UiAction::CloseTab(0));
    assert_eq!(ids(&app), vec![2]);
    app.apply_action(UiAction::CloseTab(3));
    assert_eq!(ids(&app), vec![2]);
}

#[test]
fn closing_only_tab_ignores_index() {
    let mut app = fresh();
    app.close_tab(5);
    assert_eq!(ids(&app), vec![2]);
    assert_eq!(app.active_tab, 0);
    assert_eq!(app.next_tab_id, 3);
    let tab = &app.tabs[0];
    assert!(tab.is_new_tab_chooser);
    assert_eq!(tab.address, "");
    assert!(tab.pending_url.is_none());
    assert!(!tab.has_webview);
}
