use dark_horse::browser_app::bookmarks::BookmarkEditDraft;
use dark_horse::browser_app::{BrowserApp, Effect, UiAction};
use dark_horse::user_data::{Bookmark, UserData};

fn app_at(address: &str) -> BrowserApp {
    let mut app = BrowserApp::new(UserData::default(), None);
    app.tabs[0].address = address.to_owned();
    app
}

fn bookmarks(app: &BrowserApp) -> Vec<(String, String)> {
    app.user_data.bookmarks.iter().map(|b| (b.title.clone(), b.url.clone())).collect()
}

fn with_bookmarks(list: &[(&str, &str)]) -> BrowserApp {
    let data = UserData {
        bookmarks: list
            .iter()
            .map(|(t, u)| Bookmark { title: (*t).to_owned(), url: (*u).to_owned() })
            .collect(),
    };
    BrowserApp::new(data, None)
}

fn draft(original: &str, title: &str, url: &str) -> BookmarkEditDraft {
    BookmarkEditDraft {
        original_url: original.to_owned(),
        title: title.to_owned(),
        url: url.to_owned(),
    }
}

#[test]
fn bookmark_title_is_the_host() {
    assert_eq!(BrowserApp::bookmark_title("https://example.com/a"), "example.com");
    assert_eq!(BrowserApp::bookmark_title("http://x.org?q"), "x.org");
    assert_eq!(BrowserApp::bookmark_title("https:///path"), "https:///path");
    assert_eq!(BrowserApp::bookmark_title("https://"), "https://");
}

#[test]
fn toggle_saves_then_removes() {
    let mut app = app_at("https://example.com/page");
    let e = app.toggle_bookmark(0);
    assert!(matches!(e, Effect::SaveUserData { status_tab: 0, success_message: None }));
    assert_eq!(bookmarks(&app), vec![("example.com".to_owned(), "https://example.com/page".to_owned())]);
    assert_eq!(app.tabs[0].status_message, "Bookmark saved on this device.");
    assert!(app.is_bookmarked("https://example.com/page"));
    let e = app.toggle_bookmark(0);
    assert!(matches!(e, Effect::SaveUserData { status_tab: 0, success_message: None }));
    assert!(bookmarks(&app).is_empty());
    assert_eq!(app.tabs[0].status_message, "Bookmark removed.");
    assert!(!app.is_bookmarked("https://example.com/page"));
}

#[test]
fn toggle_ignores_non_web_pages() {
    let mut app = app_at("about:blank");
    let status = app.tabs[0].status_message.clone();
    assert!(matches!(app.toggle_bookmark(0), Effect::Nothing));
    assert!(bookmarks(&app).is_empty());
    assert_eq!(app.tabs[0].status_message, status);
    let mut app = app_at("HTTPS://EXAMPLE.COM");
    assert!(matches!(app.toggle_bookmark(0), Effect::Nothing));
}

#[test]
fn toggle_removes_only_the_first_duplicate() {
    let mut app = with_bookmarks(&[("a", "https://x.y"), ("b", "https://x.y")]);
    app.tabs[0].address = "https://x.y".to_owned();
    app.toggle_bookmark(0);
    assert_eq!(bookmarks(&app), vec![("b".to_owned(), "https://x.y".to_owned())]);
}

#[test]
fn begin_edit_opens_first_match() {
    let mut app = with_bookmarks(&[("a", "https://x.y"), ("b", "https://z.w")]);
    app.begin_edit_bookmark("https://nothing");
    assert!(app.editing_bookmark.is_none());
    app.begin_edit_bookmark("https://z.w");
    let d = app.editing_bookmark.as_ref().unwrap();
    assert_eq!(d.original_url, "https://z.w");
    assert_eq!(d.title, "b");
    assert_eq!(d.url, "https://z.w");
}

#[test]
fn delete_removes_every_match() {
    let mut app = with_bookmarks(&[("a", "https://x.y"), ("b", "https://z.w"), ("c", "https://x.y")]);
    app.active_tab = 0;
    let e = app.delete_bookmark("https://x.y");
    assert!(matches!(e, Effect::SaveUserData { status_tab: 0, success_message: None }));
    assert_eq!(bookmarks(&app), vec![("b".to_owned(), "https://z.w".to_owned())]);
}

#[test]
fn save_edit_updates_bookmark() {
    let mut app = with_bookmarks(&[("a", "https://x.y")]);
    let e = app.save_bookmark_edit(draft("https://x.y", "  Docs ", " docs.rs "));
    match e {
        Effect::SaveUserData { status_tab, success_message } => {
            assert_eq!(status_tab, 0);
            assert_eq!(success_message.as_deref(), Some("Bookmark updated."));
        }
        _ => panic!("expected a save"),
    }
    assert_eq!(bookmarks(&app), vec![("Docs".to_owned(), "https://docs.rs".to_owned())]);
    assert!(app.editing_bookmark.is_none());
}

#[test]
fn save_edit_refuses_empty_name() {
    let mut app = with_bookmarks(&[("a", "https://x.y")]);
    let e = app.save_bookmark_edit(draft("https://x.y", "   ", "https://x.y"));
    assert!(matches!(e, Effect::Nothing));
    assert_eq!(app.tabs[0].status_message, "Bookmark name cannot be empty.");
    assert_eq!(app.editing_bookmark.as_ref().unwrap().title, "   ");
    assert_eq!(bookmarks(&app), vec![("a".to_owned(), "https://x.y".to_owned())]);
}

#[test]
fn save_edit_refuses_bad_addresses() {
    let mut app = with_bookmarks(&[("a", "https://x.y")]);
    app.save_bookmark_edit(draft("https://x.y", "n", "just words"));
    assert_eq!(app.tabs[0].status_message, "Enter a valid HTTP or HTTPS address.");
    assert!(app.editing_bookmark.is_some());
    app.save_bookmark_edit(draft("https://x.y", "n", "ftp://x.y"));
    assert_eq!(app.tabs[0].status_message, "Only HTTP and HTTPS addresses are supported.");
    app.save_bookmark_edit(draft("https://x.y", "n", "HTTP://x.y"));
    assert_eq!(app.tabs[0].status_message, "Only HTTP and HTTPS bookmark addresses are supported.");
    app.save_bookmark_edit(draft("https://x.y", "n", ""));
    assert_eq!(app.tabs[0].status_message, "Enter a valid HTTP or HTTPS address.");
    assert_eq!(bookmarks(&app), vec![("a".to_owned(), "https://x.y".to_owned())]);
}

#[test]
fn save_edit_of_missing_bookmark_closes_editor() {
    let mut app = with_bookmarks(&[("a", "https://x.y")]);
    app.begin_edit_bookmark("https://x.y");
    let e = app.save_bookmark_edit(draft("https://gone", "n", "localhost:3000"));
    assert!(matches!(e, Effect::Nothing));
    assert_eq!(app.tabs[0].status_message, "Bookmark could not be found.");
    assert!(app.editing_bookmark.is_none());
}

#[test]
fn finish_save_reports_outcome() {
    let mut app = with_bookmarks(&[]);
    app.tabs[0].status_message = "before".to_owned();
    app.finish_save(0, None, Ok(()));
    assert_eq!(app.tabs[0].status_message, "before");
    app.finish_save(0, Some("Bookmark updated.".to_owned()), Ok(()));
    assert_eq!(app.tabs[0].status_message, "Bookmark updated.");
    app.finish_save(0, Some("Bookmark updated.".to_owned()), Err("disk full".to_owned()));
    assert_eq!(app.tabs[0].status_message, "disk full");
}

#[test]
fn bookmark_url_from_edit_examples() {
    assert_eq!(BrowserApp::bookmark_url_from_edit(" example.com "), Ok("https://example.com".to_owned()));
    assert_eq!(BrowserApp::bookmark_url_from_edit("localhost:1"), Ok("http://localhost:1".to_owned()));
    assert_eq!(BrowserApp::bookmark_url_from_edit("http://a b"), Ok("http://a b".to_owned()));
}

#[test]
fn bookmark_actions_route() {
    let mut app = with_bookmarks(&[("a", "https://x.y")]);
    app.apply_action(UiAction::BeginEditBookmark("https://x.y".to_owned()));
    assert!(app.editing_bookmark.is_some());
    app.apply_action(UiAction::DeleteBookmark("https://x.y".to_owned()));
    assert!(bookmarks(&app).is_empty());
    app.tabs[0].address = "https://q.r".to_owned();
    app.apply_action(UiAction::ToggleBookmark(0));
    assert!(app.is_bookmarked("https://q.r"));
    app.apply_action(UiAction::ToggleBookmark(4));
    assert!(app.is_bookmarked("https://q.r"));
}
