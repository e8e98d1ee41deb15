//! Saving, naming, editing and deleting bookmarks.
use vstd::prelude::*;

use super::navigation::{
    host_of, host_of_chars, is_web_address, is_web_address_chars, looks_like_url,
    looks_like_url_chars, normalized_address, result_view, scheme_separator,
};
use super::{AppView, BrowserApp, Effect, EffectView};
use crate::text::{chars_of, find, find_chars, string_of, trim, trim_chars};
use crate::user_data::Bookmark;

verus! {

/// A bookmark being edited: the address it had, and the name and address typed so far.
pub struct BookmarkEditDraft {
    pub original_url: String,
    pub title: String,
    pub url: String,
}

#[verifier::ext_equal]
pub struct DraftView {
    pub original_url: Seq<char>,
    pub title: Seq<char>,
    pub url: Seq<char>,
}

impl BookmarkEditDraft {
    pub open spec fn view(&self) -> DraftView {
        DraftView { original_url: self.original_url@, title: self.title@, url: self.url@ }
    }
}

/// Index of the first bookmark at or after `start` whose address is `url`.
pub open spec fn bookmark_index_from(
    bs: Seq<(Seq<char>, Seq<char>)>,
    url: Seq<char>,
    start: int,
) -> Option<int>
    decreases bs.len() - start,
{
    if start < 0 || start >= bs.len() {
        None
    } else if bs[start].1 == url {
        Some(start)
    } else {
        bookmark_index_from(bs, url, start + 1)
    }
}

/// Index of the first bookmark whose address is `url`.
pub open spec fn bookmark_index(bs: Seq<(Seq<char>, Seq<char>)>, url: Seq<char>) -> Option<int> {
    bookmark_index_from(bs, url, 0)
}

/// Some bookmark has the address `url`.
pub open spec fn is_bookmarked(bs: Seq<(Seq<char>, Seq<char>)>, url: Seq<char>) -> bool {
    exists|i: int| 0 <= i < bs.len() && (#[trigger] bs[i]).1 == url
}

/// The name a new bookmark gets: the host of its address, or the whole address
/// where it names no host.
pub open spec fn bookmark_title(address: Seq<char>) -> Seq<char> {
    if host_of(address).len() == 0 {
        address
    } else {
        host_of(address)
    }
}

/// Bookmarks kept when those with address `url` are deleted.
pub open spec fn keeps(url: Seq<char>) -> spec_fn((Seq<char>, Seq<char>)) -> bool {
    |b: (Seq<char>, Seq<char>)| b.1 != url
}

/// The page of tab `i` saved as a bookmark, or its bookmark removed. Only
/// `http://` and `https://` pages can be bookmarked.
pub open spec fn toggle_bookmark_spec(s: AppView, i: int) -> (AppView, EffectView) {
    let address = s.tabs[i].address;
    if !is_web_address(address) {
        (s, EffectView::Nothing)
    } else {
        let save = EffectView::SaveUserData { status_tab: i, success_message: None };
        match bookmark_index(s.bookmarks, address) {
            Some(k) => (
                AppView { bookmarks: s.bookmarks.remove(k), ..s }.with_status(
                    i,
                    "Bookmark removed."@,
                ),
                save,
            ),
            None => (
                AppView {
                    bookmarks: s.bookmarks.push((bookmark_title(address), address)),
                    ..s
                }.with_status(i, "Bookmark saved on this device."@),
                save,
            ),
        }
    }
}

/// The bookmark with address `url`, if any, opened for editing.
pub open spec fn begin_edit_bookmark_spec(s: AppView, url: Seq<char>) -> AppView {
    match bookmark_index(s.bookmarks, url) {
        Some(k) => AppView {
            editing: Some(
                DraftView {
                    original_url: s.bookmarks[k].1,
                    title: s.bookmarks[k].0,
                    url: s.bookmarks[k].1,
                },
            ),
            ..s
        },
        None => s,
    }
}

/// Every bookmark with address `url` deleted.
pub open spec fn delete_bookmark_spec(s: AppView, url: Seq<char>) -> (AppView, EffectView) {
    (
        AppView { bookmarks: s.bookmarks.filter(keeps(url)), ..s },
        EffectView::SaveUserData { status_tab: s.active_tab, success_message: None },
    )
}

/// The address that an edited bookmark gets from what was typed, or the
/// message to show: it must be a URL or a recognizable address, and end up
/// as an `http://` or `https://` address.
pub open spec fn bookmark_url_from_edit(entered: Seq<char>) -> Result<Seq<char>, Seq<char>> {
    let e = trim(entered);
    let normalized = if find(e, scheme_separator()) is Some || looks_like_url(e) {
        normalized_address(e)
    } else {
        Err("Enter a valid HTTP or HTTPS address."@)
    };
    match normalized {
        Ok(u) => if is_web_address(u) {
            Ok(u)
        } else {
            Err("Only HTTP and HTTPS bookmark addresses are supported."@)
        },
        Err(m) => Err(m),
    }
}

/// An edited bookmark saved: its name without surrounding whitespace must not
/// be empty and its address must be acceptable; otherwise the editor stays
/// open and the shown tab says why.
pub open spec fn save_bookmark_edit_spec(s: AppView, d: DraftView) -> (AppView, EffectView) {
    let title = trim(d.title);
    let a = s.active_tab;
    if title.len() == 0 {
        (
            AppView { editing: Some(d), ..s }.with_status(a, "Bookmark name cannot be empty."@),
            EffectView::Nothing,
        )
    } else {
        match bookmark_url_from_edit(d.url) {
            Err(m) => (AppView { editing: Some(d), ..s }.with_status(a, m), EffectView::Nothing),
            Ok(u) => match bookmark_index(s.bookmarks, d.original_url) {
                None => (
                    AppView { editing: None, ..s }.with_status(
                        a,
                        "Bookmark could not be found."@,
                    ),
                    EffectView::Nothing,
                ),
                Some(k) => (
                    AppView { editing: None, bookmarks: s.bookmarks.update(k, (title, u)), ..s },
                    EffectView::SaveUserData {
                        status_tab: a,
                        success_message: Some("Bookmark updated."@),
                    },
                ),
            },
        }
    }
}

/// How the outcome of writing the bookmarks shows: an error in the status line
/// of tab `i`, or, on success, the given message where there is one.
pub open spec fn finish_save_spec(
    s: AppView,
    i: int,
    success_message: Option<Seq<char>>,
    outcome: Result<(), Seq<char>>,
) -> AppView {
    match outcome {
        Err(e) => s.with_status(i, e),
        Ok(()) => match success_message {
            Some(m) => s.with_status(i, m),
            None => s,
        },
    }
}

proof fn lemma_bookmark_index_found(bs: Seq<(Seq<char>, Seq<char>)>, url: Seq<char>, start: int)
    requires
        0 <= start,
    ensures
        bookmark_index_from(bs, url, start) matches Some(k) ==> start <= k < bs.len() && bs[k].1
            == url && forall|m: int| start <= m < k ==> (#[trigger] bs[m]).1 != url,
        bookmark_index_from(bs, url, start) is None ==> forall|m: int|
            start <= m < bs.len() ==> (#[trigger] bs[m]).1 != url,
    decreases bs.len() - start,
{
    if start < bs.len() && bs[start].1 != url {
        lemma_bookmark_index_found(bs, url, start + 1);
    }
}

/// `is_bookmarked` holds exactly where `bookmark_index` finds a bookmark.
pub proof fn lemma_bookmark_index(bs: Seq<(Seq<char>, Seq<char>)>, url: Seq<char>)
    ensures
        bookmark_index(bs, url) is Some <==> is_bookmarked(bs, url),
        bookmark_index(bs, url) matches Some(k) ==> 0 <= k < bs.len() && bs[k].1 == url
            && forall|m: int| 0 <= m < k ==> (#[trigger] bs[m]).1 != url,
{
    lemma_bookmark_index_found(bs, url, 0);
    if is_bookmarked(bs, url) {
        let i = choose|i: int| 0 <= i < bs.len() && (#[trigger] bs[i]).1 == url;
        assert(bs[i].1 == url);
    }
}

impl BrowserApp {
    /// Index of the first bookmark whose address is `url`.
    pub fn find_bookmark(&self, url: &String) -> (r: Option<usize>)
        ensures
            r matches Some(k) ==> bookmark_index(self@.bookmarks, url@) == Some(k as int)
                && k < self.user_data.bookmarks@.len(),
            r is None ==> bookmark_index(self@.bookmarks, url@) is None,
    {
        proof {
            lemma_bookmark_index(self@.bookmarks, url@);
        }
        let n = self.user_data.bookmarks.len();
        let mut k: usize = 0;
        while k < n
            invariant
                n == self.user_data.bookmarks@.len(),
                k <= n,
                bookmark_index(self@.bookmarks, url@) == bookmark_index_from(
                    self@.bookmarks,
                    url@,
                    k as int,
                ),
            decreases n - k,
        {
            if self.user_data.bookmarks[k].url == *url {
                return Some(k);
            }
            k = k + 1;
        }
        None
    }

    /// Whether some bookmark has the address `url`.
    pub fn is_bookmarked(&self, url: &str) -> (r: bool)
        ensures
            r == is_bookmarked(self@.bookmarks, url@),
    {
        let url = url.to_owned();
        proof {
            lemma_bookmark_index(self@.bookmarks, url@);
        }
        self.find_bookmark(&url).is_some()
    }

    /// The name a new bookmark for `address` gets.
    pub fn bookmark_title(address: &str) -> (r: String)
        ensures
            r@ == bookmark_title(address@),
    {
        let chars = chars_of(address);
        let host = host_of_chars(&chars);
        if host.len() == 0 {
            address.to_owned()
        } else {
            string_of(&host)
        }
    }

    /// Saves the page of tab `tab_index` as a bookmark, or removes its bookmark.
    pub fn toggle_bookmark(&mut self, tab_index: usize) -> (e: Effect)
        requires
            old(self).wf(),
            tab_index < old(self).tabs@.len(),
        ensures
            final(self).wf(),
            (final(self)@, e.view()) == toggle_bookmark_spec(old(self)@, tab_index as int),
    {
        let address = self.tabs[tab_index].address.clone();
        let chars = chars_of(address.as_str());
        if !is_web_address_chars(&chars) {
            return Effect::Nothing;
        }
        match self.find_bookmark(&address) {
            Some(k) => {
                self.user_data.bookmarks.remove(k);
                assert(self@ =~= AppView {
                    bookmarks: old(self)@.bookmarks.remove(k as int),
                    ..old(self)@
                });
                self.set_status(tab_index, "Bookmark removed.".to_owned());
            },
            None => {
                let title = Self::bookmark_title(address.as_str());
                self.user_data.bookmarks.push(Bookmark { title, url: address });
                assert(self@ =~= AppView {
                    bookmarks: old(self)@.bookmarks.push((bookmark_title(address@), address@)),
                    ..old(self)@
                });
                self.set_status(tab_index, "Bookmark saved on this device.".to_owned());
            },
        }
        Effect::SaveUserData { status_tab: tab_index, success_message: None }
    }

    /// Opens the bookmark with address `url` for editing, where there is one.
    pub fn begin_edit_bookmark(&mut self, url: &str)
        requires
            old(self).wf(),
        ensures
            final(self).wf(),
            final(self)@ == begin_edit_bookmark_spec(old(self)@, url@),
    {
        let url = url.to_owned();
        proof {
            lemma_bookmark_index(self@.bookmarks, url@);
        }
        if let Some(k) = self.find_bookmark(&url) {
            let b = &self.user_data.bookmarks[k];
            self.editing_bookmark = Some(
                BookmarkEditDraft {
                    original_url: b.url.clone(),
                    title: b.title.clone(),
                    url: b.url.clone(),
                },
            );
        }
        assert(self@ =~= begin_edit_bookmark_spec(old(self)@, url@));
    }

    /// Deletes every bookmark with address `url`.
    pub fn delete_bookmark(&mut self, url: &str) -> (e: Effect)
        requires
            old(self).wf(),
        ensures
            final(self).wf(),
            (final(self)@, e.view()) == delete_bookmark_spec(old(self)@, url@),
    {
        let url = url.to_owned();
        let ghost bs = self@.bookmarks;
        let ghost keep = keeps(url@);
        let mut kept: Vec<Bookmark> = Vec::new();
        let n = self.user_data.bookmarks.len();
        let mut i: usize = 0;
        assert(bs.take(0) =~= Seq::<(Seq<char>, Seq<char>)>::empty());
        while i < n
            invariant
                n == self.user_data.bookmarks@.len(),
                bs == self@.bookmarks,
                keep == keeps(url@),
                i <= n,
                Seq::new(kept@.len(), |j: int| kept@[j].view()) == bs.take(i as int).filter(keep),
            decreases n - i,
        {
            reveal_with_fuel(Seq::<_>::filter, 1);
            assert(bs.take(i + 1).drop_last() =~= bs.take(i as int));
            let ghost before = Seq::new(kept@.len(), |j: int| kept@[j].view());
            let b = &self.user_data.bookmarks[i];
            if b.url != url {
                kept.push(Bookmark { title: b.title.clone(), url: b.url.clone() });
                assert(Seq::new(kept@.len(), |j: int| kept@[j].view()) =~= before.push(bs[i as int]));
            }
            i = i + 1;
        }
        assert(bs.take(n as int) =~= bs);
        self.user_data.bookmarks = kept;
        assert(self@ =~= delete_bookmark_spec(old(self)@, url@).0);
        Effect::SaveUserData { status_tab: self.active_tab, success_message: None }
    }

    /// The address an edited bookmark gets from the typed `url`, or the message to show.
    pub fn bookmark_url_from_edit(url: &str) -> (r: Result<String, String>)
        ensures
            result_view(r) == bookmark_url_from_edit(url@),
    {
        let e = trim_chars(&chars_of(url));
        let sep = [':', '/', '/'];
        assert(sep@ =~= scheme_separator());
        let normalized = if find_chars(&e, &sep).is_some() || looks_like_url_chars(&e) {
            Self::normalize_address(string_of(&e).as_str())
        } else {
            Err("Enter a valid HTTP or HTTPS address.".to_owned())
        };
        match normalized {
            Ok(u) => {
                if is_web_address_chars(&chars_of(u.as_str())) {
                    Ok(u)
                } else {
                    Err("Only HTTP and HTTPS bookmark addresses are supported.".to_owned())
                }
            },
            Err(m) => Err(m),
        }
    }

    /// Saves the edited bookmark `edit`, or keeps the editor open and says why not.
    pub fn save_bookmark_edit(&mut self, edit: BookmarkEditDraft) -> (e: Effect)
        requires
            old(self).wf(),
        ensures
            final(self).wf(),
            (final(self)@, e.view()) == save_bookmark_edit_spec(old(self)@, edit.view()),
    {
        let title = trim_chars(&chars_of(edit.title.as_str()));
        let active = self.active_tab;
        if title.len() == 0 {
            self.editing_bookmark = Some(edit);
            self.set_status(active, "Bookmark name cannot be empty.".to_owned());
            return Effect::Nothing;
        }
        let url = match Self::bookmark_url_from_edit(edit.url.as_str()) {
            Ok(url) => url,
            Err(message) => {
                self.editing_bookmark = Some(edit);
                self.set_status(active, message);
                return Effect::Nothing;
            },
        };
        match self.find_bookmark(&edit.original_url) {
            None => {
                self.editing_bookmark = None;
                self.set_status(active, "Bookmark could not be found.".to_owned());
                Effect::Nothing
            },
            Some(k) => {
                self.user_data.bookmarks[k].title = string_of(&title);
                self.user_data.bookmarks[k].url = url;
                self.editing_bookmark = None;
                assert(self@ =~= save_bookmark_edit_spec(old(self)@, edit.view()).0);
                Effect::SaveUserData {
                    status_tab: active,
                    success_message: Some("Bookmark updated.".to_owned()),
                }
            },
        }
    }

    /// Shows how writing the bookmarks went.
    pub fn finish_save(
        &mut self,
        status_tab: usize,
        success_message: Option<String>,
        outcome: Result<(), String>,
    )
        requires
            old(self).wf(),
            status_tab < old(self).tabs@.len(),
        ensures
            final(self).wf(),
            final(self)@ == finish_save_spec(
                old(self)@,
                status_tab as int,
                match success_message {
                    Some(m) => Some(m@),
                    None => None,
                },
                match outcome {
                    Ok(()) => Ok(()),
                    Err(e) => Err(e@),
                },
            ),
    {
        match outcome {
            Err(error) => self.set_status(status_tab, error),
            Ok(()) => match success_message {
                Some(message) => self.set_status(status_tab, message),
                None => {},
            },
        }
    }
}

} // verus!
