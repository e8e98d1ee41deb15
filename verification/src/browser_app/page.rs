//! Events from the page views, and the window's upkeep of them: which tab
//! needs a page view made, which page views to show or hide, and what the
//! tab strip and bookmark button show.
use vstd::prelude::*;

use super::navigation::{
    is_web_address, is_web_address_chars, loading_message,
};
use super::tabs::{tab_label, TabView};
use super::{AppView, BrowserApp};
use crate::text::{chars_of, concat};

verus! {

/// A page view started or finished loading an address.
pub enum PageLoad {
    Started,
    Finished,
}

/// Index of the first tab at or after `start` with id `id`.
pub open spec fn tab_index_from(tabs: Seq<TabView>, id: u64, start: int) -> Option<int>
    decreases tabs.len() - start,
{
    if start < 0 || start >= tabs.len() {
        None
    } else if tabs[start].id == id {
        Some(start)
    } else {
        tab_index_from(tabs, id, start + 1)
    }
}

/// Index of the tab with id `id`.
pub open spec fn tab_index_with_id(tabs: Seq<TabView>, id: u64) -> Option<int> {
    tab_index_from(tabs, id, 0)
}

/// A load event for the tab with id `tab_id`: a start shows the address being
/// loaded (except `about:blank`); a finished `http://` or `https://` page
/// becomes the tab's address.
pub open spec fn page_load_spec(s: AppView, tab_id: u64, event: PageLoad, address: Seq<char>) -> AppView {
    match tab_index_with_id(s.tabs, tab_id) {
        None => s,
        Some(i) => match event {
            PageLoad::Started => if address != "about:blank"@ {
                s.with_status(i, loading_message(address))
            } else {
                s
            },
            PageLoad::Finished => if is_web_address(address) {
                s.with_tab(i, TabView { address, status: "Page loaded."@, ..s.tabs[i] })
            } else {
                s
            },
        },
    }
}

/// The shown tab's pending address, taken where the tab has no page view yet.
pub open spec fn take_pending_url_spec(s: AppView) -> (AppView, Option<(u64, Seq<char>)>) {
    let t = s.tabs[s.active_tab];
    if !t.has_webview && t.pending_url is Some {
        (s.with_tab(s.active_tab, TabView { pending_url: None, ..t }), Some((t.id, t.pending_url->0)))
    } else {
        (s, None)
    }
}

/// A page view was made for tab `i`, or could not be.
pub open spec fn webview_created_spec(s: AppView, i: int, outcome: Result<(), Seq<char>>) -> AppView {
    match outcome {
        Ok(()) => s.with_tab(i, TabView { has_webview: true, webview_visible: true, ..s.tabs[i] }),
        Err(e) => s.with_status(i, "Could not create web page view: "@ + e),
    }
}

/// Tab `i` has a page view that should be shown or hidden.
pub open spec fn needs_visibility_change(s: AppView, i: int) -> bool {
    s.tabs[i].has_webview && s.tabs[i].webview_visible != (i == s.active_tab)
}

/// The page views among the first `n` tabs to show or hide, in tab order:
/// only the shown tab's page view is visible.
pub open spec fn visibility_updates_upto(s: AppView, n: int) -> Seq<(int, bool)>
    decreases n,
{
    if n <= 0 {
        Seq::empty()
    } else if needs_visibility_change(s, n - 1) {
        visibility_updates_upto(s, n - 1).push((n - 1, n - 1 == s.active_tab))
    } else {
        visibility_updates_upto(s, n - 1)
    }
}

/// How showing or hiding the page view of tab `i` went.
pub open spec fn visibility_set_spec(s: AppView, i: int, visible: bool, outcome: Result<(), Seq<char>>) -> AppView {
    match outcome {
        Ok(()) => s.with_tab(i, TabView { webview_visible: visible, ..s.tabs[i] }),
        Err(e) => s.with_status(i, "Could not change tab visibility: "@ + e),
    }
}

/// The state after each `(tab index, visible)` update has been carried out
/// successfully, in order.
pub open spec fn apply_visibility_updates(s: AppView, updates: Seq<(int, bool)>) -> AppView
    decreases updates.len(),
{
    if updates.len() == 0 {
        s
    } else {
        let (i, visible) = updates.last();
        visibility_set_spec(apply_visibility_updates(s, updates.drop_last()), i, visible, Ok(()))
    }
}

proof fn lemma_tab_index_found(tabs: Seq<TabView>, id: u64, start: int)
    requires
        0 <= start,
    ensures
        tab_index_from(tabs, id, start) matches Some(k) ==> start <= k < tabs.len()
            && tabs[k].id == id,
    decreases tabs.len() - start,
{
    if start < tabs.len() && tabs[start].id != id {
        lemma_tab_index_found(tabs, id, start + 1);
    }
}

impl BrowserApp {
    /// Index of the tab with id `id`.
    pub fn tab_with_id(&self, id: u64) -> (r: Option<usize>)
        ensures
            r matches Some(k) ==> tab_index_with_id(self@.tabs, id) == Some(k as int)
                && k < self.tabs@.len(),
            r is None ==> tab_index_with_id(self@.tabs, id) is None,
    {
        proof {
            lemma_tab_index_found(self@.tabs, id, 0);
        }
        let n = self.tabs.len();
        let mut k: usize = 0;
        while k < n
            invariant
                n == self.tabs@.len(),
                k <= n,
                tab_index_with_id(self@.tabs, id) == tab_index_from(self@.tabs, id, k as int),
            decreases n - k,
        {
            if self.tabs[k].id == id {
                return Some(k);
            }
            k = k + 1;
        }
        None
    }

    /// Takes in a load event from the page view of the tab with id `tab_id`.
    pub fn handle_page_load(&mut self, tab_id: u64, event: PageLoad, address: String)
        requires
            old(self).wf(),
        ensures
            final(self).wf(),
            final(self)@ == page_load_spec(old(self)@, tab_id, event, address@),
    {
        let i = match self.tab_with_id(tab_id) {
            Some(i) => i,
            None => return,
        };
        match event {
            PageLoad::Started => {
                if address != "about:blank".to_owned() {
                    let message = concat(concat("Loading ", address.as_str()).as_str(), "…");
                    self.set_status(i, message);
                }
            },
            PageLoad::Finished => {
                if is_web_address_chars(&chars_of(address.as_str())) {
                    self.tabs[i].address = address;
                    self.tabs[i].status_message = "Page loaded.".to_owned();
                    assert(self@ =~= page_load_spec(old(self)@, tab_id, event, address@));
                }
            },
        }
    }

    /// The id of the shown tab and the address its page view should open,
    /// where it has none yet; the address is then no longer pending.
    pub fn take_pending_url(&mut self) -> (r: Option<(u64, String)>)
        requires
            old(self).wf(),
        ensures
            final(self).wf(),
            (final(self)@, match r {
                Some((id, url)) => Some((id, url@)),
                None => None,
            }) == take_pending_url_spec(old(self)@),
    {
        let active = self.active_tab;
        if self.tabs[active].has_webview {
            return None;
        }
        match self.tabs[active].pending_url.take() {
            Some(url) => {
                assert(self@ =~= take_pending_url_spec(old(self)@).0);
                Some((self.tabs[active].id, url))
            },
            None => {
                assert(self@ =~= old(self)@);
                None
            },
        }
    }

    /// Reports whether the window could make a page view for tab `tab_index`.
    pub fn webview_created(&mut self, tab_index: usize, outcome: Result<(), String>)
        requires
            old(self).wf(),
            tab_index < old(self).tabs@.len(),
        ensures
            final(self).wf(),
            final(self)@ == webview_created_spec(
                old(self)@,
                tab_index as int,
                match outcome {
                    Ok(()) => Ok(()),
                    Err(e) => Err(e@),
                },
            ),
    {
        match outcome {
            Ok(()) => {
                self.tabs[tab_index].has_webview = true;
                self.tabs[tab_index].webview_visible = true;
                assert(self@ =~= webview_created_spec(old(self)@, tab_index as int, Ok(())));
            },
            Err(error) => {
                self.set_status(
                    tab_index,
                    concat("Could not create web page view: ", error.as_str()),
                );
            },
        }
    }

    /// The page views to show or hide, as (tab index, visible), in tab order.
    pub fn visibility_updates(&self) -> (r: Vec<(usize, bool)>)
        requires
            self.wf(),
        ensures
            r@.len() == visibility_updates_upto(self@, self@.tabs.len() as int).len(),
            forall|k: int|
                0 <= k < r@.len() ==> (#[trigger] r@[k].0 as int, r@[k].1)
                    == visibility_updates_upto(self@, self@.tabs.len() as int)[k],
    {
        let mut r: Vec<(usize, bool)> = Vec::new();
        let n = self.tabs.len();
        let mut i: usize = 0;
        while i < n
            invariant
                n == self.tabs@.len(),
                i <= n,
                r@.len() == visibility_updates_upto(self@, i as int).len(),
                forall|k: int|
                    0 <= k < r@.len() ==> (#[trigger] r@[k].0 as int, r@[k].1)
                        == visibility_updates_upto(self@, i as int)[k],
            decreases n - i,
        {
            let is_active = i == self.active_tab;
            if self.tabs[i].has_webview && self.tabs[i].webview_visible != is_active {
                r.push((i, is_active));
            }
            i = i + 1;
        }
        r
    }

    /// Reports how showing or hiding the page view of tab `tab_index` went.
    pub fn visibility_set(&mut self, tab_index: usize, visible: bool, outcome: Result<(), String>)
        requires
            old(self).wf(),
            tab_index < old(self).tabs@.len(),
        ensures
            final(self).wf(),
            final(self)@ == visibility_set_spec(
                old(self)@,
                tab_index as int,
                visible,
                match outcome {
                    Ok(()) => Ok(()),
                    Err(e) => Err(e@),
                },
            ),
    {
        match outcome {
            Ok(()) => {
                self.tabs[tab_index].webview_visible = visible;
                assert(self@ =~= visibility_set_spec(old(self)@, tab_index as int, visible, Ok(())));
            },
            Err(error) => {
                self.set_status(
                    tab_index,
                    concat("Could not change tab visibility: ", error.as_str()),
                );
            },
        }
    }

    /// Reports that the page view of tab `tab_index` could not be resized.
    pub fn resize_failed(&mut self, tab_index: usize, error: &str)
        requires
            old(self).wf(),
            tab_index < old(self).tabs@.len(),
        ensures
            final(self).wf(),
            final(self)@ == old(self)@.with_status(
                tab_index as int,
                "Could not resize web page view: "@ + error@,
            ),
    {
        self.set_status(tab_index, concat("Could not resize web page view: ", error));
    }

    /// The names the tab strip shows, one per tab.
    pub fn tab_labels(&self) -> (r: Vec<String>)
        ensures
            r@.len() == self.tabs@.len(),
            forall|k: int| 0 <= k < r@.len() ==> #[trigger] r@[k]@ == tab_label(self.tabs@[k].address@),
    {
        let mut r: Vec<String> = Vec::new();
        let n = self.tabs.len();
        let mut i: usize = 0;
        while i < n
            invariant
                n == self.tabs@.len(),
                i <= n,
                r@.len() == i,
                forall|k: int| 0 <= k < i ==> #[trigger] r@[k]@ == tab_label(self.tabs@[k].address@),
            decreases n - i,
        {
            r.push(self.tabs[i].label());
            i = i + 1;
        }
        r
    }

    /// Whether the bookmark button is enabled: the shown tab has a page view
    /// and an `http://` or `https://` address.
    pub fn can_toggle_bookmark(&self) -> (r: bool)
        requires
            self.wf(),
        ensures
            r == (self@.tabs[self@.active_tab].has_webview && is_web_address(
                self@.tabs[self@.active_tab].address,
            )),
    {
        let t = &self.tabs[self.active_tab];
        t.has_webview && is_web_address_chars(&chars_of(t.address.as_str()))
    }
}

} // verus!
