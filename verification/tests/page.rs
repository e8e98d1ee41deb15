use dark_horse::browser_app::page::PageLoad;
use dark_horse::browser_app::BrowserApp;
use dark_horse::user_data::UserData;

fn fresh() -> BrowserApp {
    BrowserApp::new(UserData::default(), None)
}

#[test]
fn load_events_update_the_right_tab() {
    let mut app = fresh();
    app.add_tab();
    app.handle_page_load(1, PageLoad::Started, "https://a.b/x".to_owned());
    assert_eq!(app.tabs[0].status_message, "Loading https://a.b/x…");
    app.handle_page_load(1, PageLoad::Started, "about:blank".to_owned());
    assert_eq!(app.tabs[0].status_message, "Loading https://a.b/x…");
    app.handle_page_load(1, PageLoad::Finished, "https://a.b/y".to_owned());
    assert_eq!(app.tabs[0].address, "https://a.b/y");
    assert_eq!(app.tabs[0].status_message, "Page loaded.");
    app.handle_page_load(1, PageLoad::Finished, "about:blank".to_owned());
    assert_eq!(app.tabs[0].address, "https://a.b/y");
    app.handle_page_load(99, PageLoad::Finished, "https://c.d".to_owned());
    assert_eq!(app.tabs[0].address, "https://a.b/y");
    assert_eq!(app.tabs[1].address, "");
}

#[test]
fn pending_url_is_taken_once() {
    let mut app = fresh();
    assert_eq!(app.take_pending_url(), Some((1, "https://duckduckgo.com".to_owned())));
    assert_eq!(app.take_pending_url(), None);
    app.webview_created(0, Ok(()));
    assert!(app.tabs[0].has_webview && app.tabs[0].webview_visible);
}

#[test]
fn webview_failure_shows_in_status() {
    let mut app = fresh();
    app.take_pending_url();
    app.webview_created(0, Err("no view".to_owned()));
    assert_eq!(app.tabs[0].status_message, "Could not create web page view: no view");
    assert!(!app.tabs[0].has_webview);
}

#[test]
fn only_the_shown_page_view_is_visible() {
    let mut app = fresh();
    app.webview_created(0, Ok(()));
    app.add_tab();
    app.webview_created(1, Ok(()));
    app.add_tab();
    // Tab 0 is visible though not shown; tab 1 too; tab 2 has no view.
    assert_eq!(app.visibility_updates(), vec![(0, false), (1, false)]);
    app.visibility_set(0, false, Ok(()));
    assert!(!app.tabs[0].webview_visible);
    app.visibility_set(1, false, Err("stuck".to_owned()));
    assert_eq!(app.tabs[1].status_message, "Could not change tab visibility: stuck");
    assert_eq!(app.visibility_updates(), vec![(1, false)]);
    app.resize_failed(2, "small");
    assert_eq!(app.tabs[2].status_message, "Could not resize web page view: small");
}

#[test]
fn tab_strip_and_bookmark_button() {
    let mut app = fresh();
    app.add_tab();
    assert_eq!(app.tab_labels(), vec!["duckduckgo.com".to_owned(), "New tab".to_owned()]);
    assert!(!app.can_toggle_bookmark());
    app.active_tab = 0;
    assert!(!app.can_toggle_bookmark());
    app.webview_created(0, Ok(()));
    assert!(app.can_toggle_bookmark());
    app.tabs[0].address = "about:blank".to_owned();
    assert!(!app.can_toggle_bookmark());
    assert_eq!(app.tab_with_id(2), Some(1));
    assert_eq!(app.tab_with_id(3), None);
}
