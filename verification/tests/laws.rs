//! Concrete instances of the library's laws.
use dark_horse::browser_app::BrowserApp;
use dark_horse::user_data::UserData;

fn decode(s: &str) -> Vec<u8> {
    let b = s.as_bytes();
    let mut out = Vec::new();
    let mut i = 0;
    while i < b.len() {
        if b[i] == b'+' {
            out.push(b' ');
            i += 1;
        } else if b[i] == b'%' && i + 2 < b.len() {
            let hex = std::str::from_utf8(&b[i + 1..i + 3]).unwrap();
            out.push(u8::from_str_radix(hex, 16).unwrap());
            i += 3;
        } else {
            out.push(b[i]);
            i += 1;
        }
    }
    out
}

#[test]
fn search_queries_round_trip() {
    for q in ["rust lang", "a+b=c & d", "100% ✓ ünïcode", "", "~!@#$%^&*()"] {
        let enc = BrowserApp::encode_search_query(q);
        assert!(enc.chars().all(|c| c.is_ascii_alphanumeric() || "*-._+%".contains(c)), "{enc}");
        assert_eq!(decode(&enc), q.as_bytes(), "{q}");
        let b = enc.as_bytes();
        for (i, c) in b.iter().enumerate() {
            if *c == b'%' {
                assert!(i + 2 < b.len(), "{enc}");
                assert!(b"0123456789ABCDEF".contains(&b[i + 1]) && b"0123456789ABCDEF".contains(&b[i + 2]), "{enc}");
            }
        }
    }
}

#[test]
fn normalized_addresses_are_stable() {
    for a in ["example.com", "  localhost:8000 ", "search words", "HTTP://X.Y", "[::1]", "é"] {
        let r = BrowserApp::normalize_address(a).unwrap();
        assert_eq!(BrowserApp::normalize_address(&r), Ok(r.clone()), "{a}");
        let lower = r.to_ascii_lowercase();
        assert!(lower.starts_with("http://") || lower.starts_with("https://"));
    }
}

#[test]
fn typed_domain_names_tab_and_bookmark() {
    let mut app = BrowserApp::new(UserData::default(), None);
    app.navigate(0, "docs.rs/wry");
    assert_eq!(app.tabs[0].label(), "docs.rs");
    assert_eq!(BrowserApp::bookmark_title(&app.tabs[0].address), "docs.rs");
    app.navigate(0, "localhost:8765/x");
    assert_eq!(app.tabs[0].label(), "localhost:8765");
}

#[test]
fn new_tab_then_close_restores_tabs() {
    let mut app = BrowserApp::new(UserData::default(), None);
    app.add_tab();
    app.navigate(1, "a.b");
    let before: Vec<(u64, String)> = app.tabs.iter().map(|t| (t.id, t.address.clone())).collect();
    app.add_tab();
    let last = app.tabs.len() - 1;
    app.close_tab(last);
    let after: Vec<(u64, String)> = app.tabs.iter().map(|t| (t.id, t.address.clone())).collect();
    assert_eq!(before, after);
}

#[test]
fn toggling_twice_restores_bookmarks() {
    let mut app = BrowserApp::new(UserData::default(), None);
    app.tabs[0].address = "https://one.two".to_owned();
    app.toggle_bookmark(0);
    app.tabs[0].address = "https://three.four".to_owned();
    let before: Vec<String> = app.user_data.bookmarks.iter().map(|b| b.url.clone()).collect();
    app.toggle_bookmark(0);
    assert!(app.is_bookmarked("https://three.four"));
    app.toggle_bookmark(0);
    assert!(!app.is_bookmarked("https://three.four"));
    let after: Vec<String> = app.user_data.bookmarks.iter().map(|b| b.url.clone()).collect();
    assert_eq!(before, after);
}

#[test]
fn saved_edit_opens_unchanged() {
    let mut app = BrowserApp::new(UserData::default(), None);
    app.tabs[0].address = "https://one.two".to_owned();
    app.toggle_bookmark(0);
    app.save_bookmark_edit(dark_horse::browser_app::bookmarks::BookmarkEditDraft {
        original_url: "https://one.two".to_owned(),
        title: " One ".to_owned(),
        url: "127.0.0.1:9".to_owned(),
    });
    let b = &app.user_data.bookmarks[0];
    assert_eq!(b.title, "One");
    assert_eq!(b.url, "http://127.0.0.1:9");
    assert_eq!(BrowserApp::normalize_address(&b.url), Ok(b.url.clone()));
}

#[test]
fn bookmarks_stay_web_addresses() {
    let mut app = BrowserApp::new(UserData::default(), None);
    for address in ["https://a.b", "ftp://c.d", "about:blank", "http://e.f", "HTTP://G.H"] {
        app.tabs[0].address = address.to_owned();
        app.apply_action(dark_horse::browser_app::UiAction::ToggleBookmark(0));
    }
    app.apply_action(dark_horse::browser_app::UiAction::DeleteBookmark("https://a.b".to_owned()));
    app.save_bookmark_edit(dark_horse::browser_app::bookmarks::BookmarkEditDraft {
        original_url: "http://e.f".to_owned(),
        title: "e".to_owned(),
        url: "mailto:x@y.z".to_owned(),
    });
    let urls: Vec<String> = app.user_data.bookmarks.iter().map(|b| b.url.clone()).collect();
    assert_eq!(urls, vec!["http://e.f".to_owned()]);
    assert!(urls.iter().all(|u| u.starts_with("http://") || u.starts_with("https://")));
}

#[test]
fn only_shown_page_view_visible_after_updates() {
    let mut app = BrowserApp::new(UserData::default(), None);
    app.webview_created(0, Ok(()));
    app.add_tab();
    app.add_tab();
    app.webview_created(2, Ok(()));
    app.add_tab();
    app.active_tab = 1;
    for (index, visible) in app.visibility_updates() {
        assert_ne!(app.tabs[index].webview_visible, visible);
        app.visibility_set(index, visible, Ok(()));
    }
    for (j, tab) in app.tabs.iter().enumerate() {
        if tab.has_webview {
            assert_eq!(tab.webview_visible, j == app.active_tab);
        }
    }
    assert!(app.visibility_updates().is_empty());
}
