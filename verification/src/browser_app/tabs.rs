//! Tabs: opening, closing and naming them.
use vstd::prelude::*;

use super::navigation::{host_of, host_of_chars};
use super::{AppView, BrowserApp};
use crate::text::{chars_of, string_of};

verus! {

pub struct BrowserTab {
    pub id: u64,
    /// What the address bar of this tab shows.
    pub address: String,
    pub status_message: String,
    /// An address to open once the tab has a page view.
    pub pending_url: Option<String>,
    /// The tab offers DuckDuckGo and the bookmarks instead of a page.
    pub is_new_tab_chooser: bool,
    /// The window has made a page view for this tab.
    pub has_webview: bool,
    pub webview_visible: bool,
}

#[verifier::ext_equal]
pub struct TabView {
    pub id: u64,
    pub address: Seq<char>,
    pub status: Seq<char>,
    pub pending_url: Option<Seq<char>>,
    pub new_tab_chooser: bool,
    pub has_webview: bool,
    pub webview_visible: bool,
}

impl BrowserTab {
    pub open spec fn view(&self) -> TabView {
        TabView {
            id: self.id,
            address: self.address@,
            status: self.status_message@,
            pending_url: match self.pending_url {
                Some(u) => Some(u@),
                None => None,
            },
            new_tab_chooser: self.is_new_tab_chooser,
            has_webview: self.has_webview,
            webview_visible: self.webview_visible,
        }
    }
}

/// A tab that is about to open `url`.
pub open spec fn tab_with_url(id: u64, url: Seq<char>, status: Seq<char>) -> TabView {
    TabView {
        id,
        address: url,
        status,
        pending_url: Some(url),
        new_tab_chooser: false,
        has_webview: false,
        webview_visible: false,
    }
}

/// A new tab, offering its choices.
pub open spec fn new_tab_view(id: u64) -> TabView {
    TabView {
        id,
        address: Seq::empty(),
        status: "Choose what to open in this tab."@,
        pending_url: None,
        new_tab_chooser: true,
        has_webview: false,
        webview_visible: false,
    }
}

/// The name a tab shows: the host of its address, or "New tab".
pub open spec fn tab_label(address: Seq<char>) -> Seq<char> {
    if host_of(address).len() == 0 {
        "New tab"@
    } else {
        host_of(address)
    }
}

/// A new tab added after the others and shown.
pub open spec fn add_tab_spec(s: AppView) -> AppView {
    AppView {
        tabs: s.tabs.push(new_tab_view(s.next_tab_id)),
        active_tab: s.tabs.len() as int,
        next_tab_id: (s.next_tab_id + 1) as u64,
        ..s
    }
}

/// Tab `i` closed. The last tab is never closed: whatever `i`, it is replaced
/// by a new tab.
/// The shown tab stays shown; where it is the one closed, the tab that took its
/// place is shown, or the new last tab.
pub open spec fn close_tab_spec(s: AppView, i: int) -> AppView {
    if s.tabs.len() == 1 {
        AppView {
            tabs: seq![new_tab_view(s.next_tab_id)],
            active_tab: 0,
            next_tab_id: (s.next_tab_id + 1) as u64,
            ..s
        }
    } else {
        let tabs = s.tabs.remove(i);
        AppView {
            tabs,
            active_tab: if s.active_tab > i {
                s.active_tab - 1
            } else if s.active_tab == i {
                if i < tabs.len() - 1 {
                    i
                } else {
                    tabs.len() - 1
                }
            } else {
                s.active_tab
            },
            ..s
        }
    }
}

impl BrowserTab {
    pub fn with_url(id: u64, url: String, status_message: String) -> (t: BrowserTab)
        ensures
            t.view() == tab_with_url(id, url@, status_message@),
    {
        BrowserTab {
            id,
            address: url.clone(),
            status_message,
            pending_url: Some(url),
            is_new_tab_chooser: false,
            has_webview: false,
            webview_visible: false,
        }
    }

    pub fn new_tab(id: u64) -> (t: BrowserTab)
        ensures
            t.view() == new_tab_view(id),
    {
        BrowserTab {
            id,
            address: String::new(),
            status_message: "Choose what to open in this tab.".to_owned(),
            pending_url: None,
            is_new_tab_chooser: true,
            has_webview: false,
            webview_visible: false,
        }
    }

    /// The tab's name: the host of its address without `https://` or
    /// `http://`, or "New tab" where that is empty.
    pub fn label(&self) -> (r: String)
        ensures
            r@ == tab_label(self.address@),
    {
        let address = chars_of(self.address.as_str());
        let host = host_of_chars(&address);
        if host.len() == 0 {
            "New tab".to_owned()
        } else {
            string_of(&host)
        }
    }
}

impl BrowserApp {
    /// Opens a new tab after the others and shows it.
    pub fn add_tab(&mut self)
        requires
            old(self).wf(),
            old(self).next_tab_id < u64::MAX,
        ensures
            final(self).wf(),
            final(self)@ == add_tab_spec(old(self)@),
    {
        let tab = BrowserTab::new_tab(self.next_tab_id);
        self.next_tab_id = self.next_tab_id + 1;
        self.tabs.push(tab);
        self.active_tab = self.tabs.len() - 1;
        assert(self@ =~= add_tab_spec(old(self)@));
    }

    /// Closes tab `tab_index`; closing the only tab, whatever the index, leaves
    /// a new tab in its place.
    pub fn close_tab(&mut self, tab_index: usize)
        requires
            old(self).wf(),
            old(self).tabs@.len() > 1 ==> tab_index < old(self).tabs@.len(),
            old(self).tabs@.len() == 1 ==> old(self).next_tab_id < u64::MAX,
        ensures
            final(self).wf(),
            final(self)@ == close_tab_spec(old(self)@, tab_index as int),
    {
        if self.tabs.len() == 1 {
            self.tabs.set(0, BrowserTab::new_tab(self.next_tab_id));
            self.next_tab_id = self.next_tab_id + 1;
            self.active_tab = 0;
            assert(self@ =~= close_tab_spec(old(self)@, tab_index as int));
            return;
        }
        self.tabs.remove(tab_index);
        if self.active_tab > tab_index {
            self.active_tab = self.active_tab - 1;
        } else if self.active_tab == tab_index {
            self.active_tab = if tab_index < self.tabs.len() - 1 {
                tab_index
            } else {
                self.tabs.len() - 1
            };
        }
        assert(self@ =~= close_tab_spec(old(self)@, tab_index as int));
    }
}

} // verus!
