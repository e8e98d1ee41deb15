//! The browser's state: its tabs, which one is shown, the saved bookmarks and
//! the bookmark being edited, and how the window's actions change them.
//!
//! Web pages themselves are shown by the window; every operation here that
//! needs the window to do something returns it as an [`Effect`], and the
//! window reports back how that went.
use vstd::prelude::*;

use crate::user_data::UserData;

pub mod bookmarks;
pub mod navigation;
pub mod page;
pub mod tabs;

use bookmarks::{
    begin_edit_bookmark_spec, delete_bookmark_spec, toggle_bookmark_spec, BookmarkEditDraft,
    DraftView,
};
use navigation::{navigate_spec, navigate_to_url_spec, start_page, start_page_chars};
use tabs::{add_tab_spec, close_tab_spec, tab_with_url, BrowserTab, TabView};
use crate::text::string_of;

verus! {

pub struct BrowserApp {
    pub tabs: Vec<BrowserTab>,
    pub active_tab: usize,
    pub next_tab_id: u64,
    pub user_data: UserData,
    pub editing_bookmark: Option<BookmarkEditDraft>,
}

/// The browser's state as plain values.
#[verifier::ext_equal]
pub struct AppView {
    pub tabs: Seq<TabView>,
    pub active_tab: int,
    pub next_tab_id: u64,
    /// Saved bookmarks, each as (name, address).
    pub bookmarks: Seq<(Seq<char>, Seq<char>)>,
    pub editing: Option<DraftView>,
}

/// Work left for the window after an operation.
pub enum Effect {
    Nothing,
    /// Open `url` in the page view of tab `tab_index`; a failure is reported
    /// with [`BrowserApp::load_failed`].
    LoadUrl { tab_index: usize, url: String },
    /// Write the bookmarks to disk; the outcome is reported with
    /// [`BrowserApp::finish_save`], together with the tab and message given here.
    SaveUserData { status_tab: usize, success_message: Option<String> },
}

#[verifier::ext_equal]
pub enum EffectView {
    Nothing,
    LoadUrl { tab_index: int, url: Seq<char> },
    SaveUserData { status_tab: int, success_message: Option<Seq<char>> },
}

/// What the user asked for in the window.
pub enum UiAction {
    SelectTab(usize),
    NewTab,
    CloseTab(usize),
    Navigate(usize, String),
    OpenBookmark(usize, String),
    BeginEditBookmark(String),
    DeleteBookmark(String),
    ToggleBookmark(usize),
    ChooseNewTabPage(usize, NewTabChoice),
}

/// What a new tab was asked to open.
pub enum NewTabChoice {
    DuckDuckGo,
    Bookmark(String),
}

impl Effect {
    pub open spec fn view(&self) -> EffectView {
        match self {
            Effect::Nothing => EffectView::Nothing,
            Effect::LoadUrl { tab_index, url } => EffectView::LoadUrl {
                tab_index: *tab_index as int,
                url: url@,
            },
            Effect::SaveUserData { status_tab, success_message } => EffectView::SaveUserData {
                status_tab: *status_tab as int,
                success_message: match success_message {
                    Some(m) => Some(m@),
                    None => None,
                },
            },
        }
    }
}

impl AppView {
    /// The state the browser keeps at all times: at least one tab, the shown
    /// tab is one of them, and tab ids are distinct and below the next id.
    pub open spec fn wf(self) -> bool {
        &&& self.tabs.len() >= 1
        &&& 0 <= self.active_tab < self.tabs.len()
        &&& forall|i: int| 0 <= i < self.tabs.len() ==> #[trigger] self.tabs[i].id < self.next_tab_id
        &&& forall|i: int, j: int|
            0 <= i < self.tabs.len() && 0 <= j < self.tabs.len() && i != j ==> #[trigger] self.tabs[i].id
                != #[trigger] self.tabs[j].id
    }

    /// Tab `i` replaced by `t`.
    pub open spec fn with_tab(self, i: int, t: TabView) -> AppView {
        AppView { tabs: self.tabs.update(i, t), ..self }
    }

    /// Tab `i` showing `message` in its status line.
    pub open spec fn with_status(self, i: int, message: Seq<char>) -> AppView {
        self.with_tab(i, TabView { status: message, ..self.tabs[i] })
    }
}

impl View for BrowserApp {
    type V = AppView;

    open spec fn view(&self) -> AppView {
        AppView {
            tabs: Seq::new(self.tabs@.len(), |i: int| self.tabs@[i].view()),
            active_tab: self.active_tab as int,
            next_tab_id: self.next_tab_id,
            bookmarks: self.user_data.view(),
            editing: match self.editing_bookmark {
                Some(d) => Some(d.view()),
                None => None,
            },
        }
    }
}

/// The browser as it opens: one tab opening DuckDuckGo, whose status line
/// shows why the saved bookmarks could not be read, where they could not.
pub open spec fn initial_view(
    bookmarks: Seq<(Seq<char>, Seq<char>)>,
    load_error: Option<Seq<char>>,
) -> AppView {
    AppView {
        tabs: seq![
            tab_with_url(
                1,
                start_page(),
                match load_error {
                    Some(e) => e,
                    None => "Opening DuckDuckGo…"@,
                },
            ),
        ],
        active_tab: 0,
        next_tab_id: 2,
        bookmarks,
        editing: None,
    }
}

/// What an action from the window does. Actions on a tab that does not exist
/// do nothing.
pub open spec fn apply_action_spec(s: AppView, action: UiAction) -> (AppView, EffectView) {
    let n = s.tabs.len();
    match action {
        UiAction::SelectTab(i) => if i < n {
            (AppView { active_tab: i as int, ..s }, EffectView::Nothing)
        } else {
            (s, EffectView::Nothing)
        },
        UiAction::NewTab => (add_tab_spec(s), EffectView::Nothing),
        UiAction::CloseTab(i) => if i < n {
            (close_tab_spec(s, i as int), EffectView::Nothing)
        } else {
            (s, EffectView::Nothing)
        },
        UiAction::Navigate(i, input) => if i < n {
            navigate_spec(s, i as int, input@)
        } else {
            (s, EffectView::Nothing)
        },
        UiAction::OpenBookmark(i, url) => if i < n {
            navigate_to_url_spec(s, i as int, url@)
        } else {
            (s, EffectView::Nothing)
        },
        UiAction::BeginEditBookmark(url) => (begin_edit_bookmark_spec(s, url@), EffectView::Nothing),
        UiAction::DeleteBookmark(url) => delete_bookmark_spec(s, url@),
        UiAction::ToggleBookmark(i) => if i < n {
            toggle_bookmark_spec(s, i as int)
        } else {
            (s, EffectView::Nothing)
        },
        UiAction::ChooseNewTabPage(i, choice) => if i < n {
            navigate_to_url_spec(
                s,
                i as int,
                match choice {
                    NewTabChoice::DuckDuckGo => start_page(),
                    NewTabChoice::Bookmark(url) => url@,
                },
            )
        } else {
            (s, EffectView::Nothing)
        },
    }
}

impl BrowserApp {
    pub open spec fn wf(&self) -> bool {
        self@.wf()
    }

    /// The browser as it opens, with the bookmarks read from this device and
    /// the message to show where they could not be read.
    pub fn new(user_data: UserData, load_error: Option<String>) -> (app: BrowserApp)
        ensures
            app.wf(),
            app@ == initial_view(
                user_data.view(),
                match load_error {
                    Some(e) => Some(e@),
                    None => None,
                },
            ),
    {
        let mut first = BrowserTab::with_url(
            1,
            string_of(&start_page_chars()),
            "Opening DuckDuckGo…".to_owned(),
        );
        if let Some(error) = load_error {
            first.status_message = error;
        }
        let mut tabs: Vec<BrowserTab> = Vec::new();
        tabs.push(first);
        let app = BrowserApp {
            tabs,
            active_tab: 0,
            next_tab_id: 2,
            user_data,
            editing_bookmark: None,
        };
        assert(app@ =~= initial_view(
            user_data.view(),
            match load_error {
                Some(e) => Some(e@),
                None => None,
            },
        ));
        app
    }

    /// Carries out an action from the window.
    pub fn apply_action(&mut self, action: UiAction) -> (e: Effect)
        requires
            old(self).wf(),
            action is NewTab ==> old(self).next_tab_id < u64::MAX,
            (action matches UiAction::CloseTab(i) && i < old(self).tabs@.len()
                && old(self).tabs@.len() == 1) ==> old(self).next_tab_id < u64::MAX,
        ensures
            final(self).wf(),
            (final(self)@, e.view()) == apply_action_spec(old(self)@, action),
    {
        let n = self.tabs.len();
        match action {
            UiAction::SelectTab(index) => {
                if index < n {
                    self.active_tab = index;
                    assert(self@ =~= apply_action_spec(old(self)@, action).0);
                }
                Effect::Nothing
            },
            UiAction::NewTab => {
                self.add_tab();
                Effect::Nothing
            },
            UiAction::CloseTab(index) => {
                if index < n {
                    self.close_tab(index);
                }
                Effect::Nothing
            },
            UiAction::Navigate(index, input) => {
                if index < n {
                    self.navigate(index, input.as_str())
                } else {
                    Effect::Nothing
                }
            },
            UiAction::OpenBookmark(index, url) => {
                if index < n {
                    self.navigate_to_url(index, url)
                } else {
                    Effect::Nothing
                }
            },
            UiAction::BeginEditBookmark(url) => {
                self.begin_edit_bookmark(url.as_str());
                Effect::Nothing
            },
            UiAction::DeleteBookmark(url) => self.delete_bookmark(url.as_str()),
            UiAction::ToggleBookmark(index) => {
                if index < n {
                    self.toggle_bookmark(index)
                } else {
                    Effect::Nothing
                }
            },
            UiAction::ChooseNewTabPage(index, choice) => {
                if index < n {
                    match choice {
                        NewTabChoice::DuckDuckGo => {
                            self.navigate_to_url(index, string_of(&start_page_chars()))
                        },
                        NewTabChoice::Bookmark(url) => self.navigate_to_url(index, url),
                    }
                } else {
                    Effect::Nothing
                }
            },
        }
    }
}

} // verus!
