//! Properties that hold across the library's operations.
use vstd::prelude::*;
use vstd::utf8::encode_utf8;

use crate::browser_app::bookmarks::{
    bookmark_index, bookmark_title, delete_bookmark_spec, is_bookmarked, keeps,
    lemma_bookmark_index, save_bookmark_edit_spec, toggle_bookmark_spec, DraftView,
};
use crate::browser_app::navigation::{
    authority, encode_byte, encode_query, hex_upper, http_prefix, http_word,
    https_prefix, https_word, is_loopback_address, is_unreserved, is_web_address, looks_like_url,
    normalized_address, scheme_separator, search_prefix, without_scheme,
};
use crate::browser_app::navigation::{
    authority_end_from, ends_authority, host_without_port, is_domain, is_label,
    lemma_authority_whole, localhost, unicode_alphanumeric,
};
use crate::browser_app::page::{
    apply_visibility_updates, needs_visibility_change, page_load_spec, tab_index_from,
    tab_index_with_id, visibility_updates_upto, PageLoad,
};
use crate::ip::{all_digits, is_octet, parse_ipv4};
use crate::browser_app::tabs::{add_tab_spec, close_tab_spec, tab_label, TabView};
use crate::browser_app::{apply_action_spec, AppView, UiAction};
use crate::ip::hex_digit_value;
use crate::text::{
    ascii_lower, find_from, has_white_space, lemma_rfind_absent, lemma_split_covers,
    lemma_split_many_has_sep, rfind, split,
    eq_ignore_ascii_case, find, is_white_space, lemma_find_reaches, lemma_trim_clean,
    lemma_trim_ends, lemma_trim_idempotent, occurs_at, starts_with, trim,
};

verus! {

/// A character that may stand in a search query written for a URL: a letter,
/// a digit, one of `*-._`, `+` or `%`.
pub open spec fn is_query_char(c: char) -> bool {
    let u = c as u32;
    ||| 0x41 <= u <= 0x5a
    ||| 0x61 <= u <= 0x7a
    ||| 0x30 <= u <= 0x39
    ||| u == 0x2a
    ||| u == 0x2d
    ||| u == 0x2e
    ||| u == 0x5f
    ||| u == 0x2b
    ||| u == 0x25
}

/// Reading a written search query back into bytes: `+` is a space, `%` and two
/// hexadecimal digits is the byte they denote, any other character is itself.
pub open spec fn decode_query(s: Seq<char>) -> Seq<u8>
    decreases s.len(),
{
    if s.len() == 0 {
        Seq::empty()
    } else if s[0] == '+' {
        seq![0x20u8] + decode_query(s.drop_first())
    } else if s[0] == '%' && s.len() >= 3 {
        seq![(hex_digit_value(s[1]) * 16 + hex_digit_value(s[2])) as u8] + decode_query(s.skip(3))
    } else {
        seq![(s[0] as u32) as u8] + decode_query(s.drop_first())
    }
}

/// An address the browser opens: its scheme, before the first `://`, is
/// `http` or `https` in any mix of case.
pub open spec fn is_http_url(r: Seq<char>) -> bool {
    match find(r, scheme_separator()) {
        Some(i) => eq_ignore_ascii_case(r.take(i), http_word()) || eq_ignore_ascii_case(
            r.take(i),
            https_word(),
        ),
        None => false,
    }
}

proof fn lemma_encode_byte(b: u8)
    ensures
        forall|i: int|
            0 <= i < encode_byte(b).len() ==> is_query_char(#[trigger] encode_byte(b)[i]),
        decode_query(encode_byte(b)) == seq![b],
{
    let e = encode_byte(b);
    if is_unreserved(b) {
        assert((b as char) as u32 == b as u32);
        assert(decode_query(e.drop_first()) =~= Seq::<u8>::empty());
        assert(decode_query(e) =~= seq![b]);
    } else if b == 0x20 {
        assert(decode_query(e.drop_first()) =~= Seq::<u8>::empty());
        assert(decode_query(e) =~= seq![b]);
    } else {
        let hi = b / 16;
        let lo = b % 16;
        assert(hi < 16 && lo < 16);
        assert(hex_digit_value(hex_upper(hi)) == hi as nat);
        assert(hex_digit_value(hex_upper(lo)) == lo as nat);
        assert(decode_query(e.skip(3)) =~= Seq::<u8>::empty());
        assert(decode_query(e) =~= seq![b]);
    }
}

proof fn lemma_decode_append(b: u8, rest: Seq<char>)
    ensures
        decode_query(encode_byte(b) + rest) == seq![b] + decode_query(rest),
{
    let e = encode_byte(b);
    lemma_encode_byte(b);
    let s = e + rest;
    if is_unreserved(b) {
        assert((b as char) as u32 == b as u32);
        assert(s.drop_first() =~= rest);
    } else if b == 0x20 {
        assert(s.drop_first() =~= rest);
    } else {
        assert(hex_digit_value(hex_upper(b / 16)) == (b / 16) as nat);
        assert(hex_digit_value(hex_upper(b % 16)) == (b % 16) as nat);
        assert(s.skip(3) =~= rest);
    }
}

proof fn lemma_encode_front(b: u8, rest: Seq<u8>)
    ensures
        encode_query(seq![b] + rest) == encode_byte(b) + encode_query(rest),
    decreases rest.len(),
{
    let s = seq![b] + rest;
    if rest.len() == 0 {
        assert(s.drop_last() =~= Seq::<u8>::empty());
        assert(s.last() == b);
        assert(encode_query(s.drop_last()) =~= Seq::<char>::empty());
        assert(encode_query(s) =~= encode_byte(b));
    } else {
        assert(s.drop_last() =~= seq![b] + rest.drop_last());
        assert(s.last() == rest.last());
        lemma_encode_front(b, rest.drop_last());
        assert(encode_query(s) =~= encode_byte(b) + encode_query(rest));
    }
}

/// Every character of a written search query can stand in a URL.
pub proof fn law_encoded_query_is_url_safe(bytes: Seq<u8>)
    ensures
        forall|i: int|
            0 <= i < encode_query(bytes).len() ==> is_query_char(#[trigger] encode_query(bytes)[i]),
    decreases bytes.len(),
{
    if bytes.len() > 0 {
        law_encoded_query_is_url_safe(bytes.drop_last());
        lemma_encode_byte(bytes.last());
        let a = encode_query(bytes.drop_last());
        let b = encode_byte(bytes.last());
        assert forall|i: int| 0 <= i < (a + b).len() implies is_query_char(#[trigger] (a + b)[i]) by {
            if i < a.len() {
                assert((a + b)[i] == a[i]);
            } else {
                assert((a + b)[i] == b[i - a.len()]);
            }
        }
    }
}

/// An upper-case hexadecimal digit.
pub open spec fn is_upper_hex(c: char) -> bool {
    let u = c as u32;
    0x30 <= u <= 0x39 || 0x41 <= u <= 0x46
}

/// Every `%` in a written search query begins an escape `%XY`, with `X` and
/// `Y` upper-case hexadecimal digits.
pub proof fn law_encoded_query_escapes(bytes: Seq<u8>)
    ensures
        forall|i: int|
            0 <= i < encode_query(bytes).len() && #[trigger] encode_query(bytes)[i] == '%' ==> {
                &&& i + 2 < encode_query(bytes).len()
                &&& is_upper_hex(encode_query(bytes)[i + 1])
                &&& is_upper_hex(encode_query(bytes)[i + 2])
            },
    decreases bytes.len(),
{
    if bytes.len() > 0 {
        law_encoded_query_escapes(bytes.drop_last());
        let a = encode_query(bytes.drop_last());
        let x = bytes.last();
        let b = encode_byte(x);
        let e = a + b;
        assert(encode_query(bytes) == e);
        assert forall|i: int| 0 <= i < e.len() && #[trigger] e[i] == '%' implies {
            &&& i + 2 < e.len()
            &&& is_upper_hex(e[i + 1])
            &&& is_upper_hex(e[i + 2])
        } by {
            if i < a.len() {
                assert(e[i] == a[i]);
                assert(e[i + 1] == a[i + 1]);
                assert(e[i + 2] == a[i + 2]);
            } else {
                assert(e[i] == b[i - a.len()]);
                if is_unreserved(x) {
                    assert((x as char) as u32 == x as u32);
                } else if x != 0x20 {
                    assert(i == a.len()) by {
                        if i > a.len() {
                            assert(b[i - a.len()] == hex_upper(x / 16) || b[i - a.len()]
                                == hex_upper(x % 16));
                        }
                    }
                    assert(e[i + 1] == hex_upper(x / 16));
                    assert(e[i + 2] == hex_upper(x % 16));
                }
            }
        }
    }
}

/// A search query survives being written for a URL: reading it back gives
/// the same bytes.
pub proof fn law_search_query_round_trip(bytes: Seq<u8>)
    ensures
        decode_query(encode_query(bytes)) == bytes,
    decreases bytes.len(),
{
    if bytes.len() > 0 {
        let rest = bytes.drop_first();
        assert(bytes =~= seq![bytes[0]] + rest);
        lemma_encode_front(bytes[0], rest);
        lemma_decode_append(bytes[0], encode_query(rest));
        law_search_query_round_trip(rest);
        assert(decode_query(encode_query(bytes)) =~= bytes);
    }
}

/// Two search queries with different bytes are written differently.
pub proof fn law_search_query_injective(a: Seq<u8>, b: Seq<u8>)
    requires
        a != b,
    ensures
        encode_query(a) != encode_query(b),
{
    law_search_query_round_trip(a);
    law_search_query_round_trip(b);
}

/// `w://rest` with `w` one of `http` and `https` and no whitespace at its end
/// is kept as it is.
proof fn lemma_scheme_url_kept(w: Seq<char>, rest: Seq<char>)
    requires
        w == http_word() || w == https_word(),
        !is_white_space((w + scheme_separator() + rest).last()),
    ensures
        normalized_address(w + scheme_separator() + rest) == Ok::<Seq<char>, Seq<char>>(w + scheme_separator() + rest),
        is_http_url(w + scheme_separator() + rest),
{
    let r = w + scheme_separator() + rest;
    let sep = scheme_separator();
    assert(r[0] == 'h');
    lemma_trim_clean(r);
    assert(r.subrange(w.len() as int, w.len() as int + 3) =~= sep);
    assert forall|k: int| 0 <= k < w.len() implies !occurs_at(r, sep, k) by {
        assert(r.subrange(k, k + 3)[0] == w[k]);
    }
    lemma_find_reaches(r, sep, 0, w.len() as int);
    assert(r.take(w.len() as int) =~= w);
}

/// Whatever the address bar opens, it opens again unchanged: the result of
/// reading an address reads as itself, and is an `http` or `https` address.
pub proof fn law_normalized_address_is_stable(address: Seq<char>)
    requires
        normalized_address(address) is Ok,
    ensures
        normalized_address(normalized_address(address)->Ok_0) == normalized_address(address),
        is_http_url(normalized_address(address)->Ok_0),
{
    let e = trim(address);
    lemma_trim_idempotent(address);
    lemma_trim_ends(address);
    let sep = scheme_separator();
    match find(e, sep) {
        Some(i) => {},
        None => {
            if looks_like_url(e) {
                let w = if is_loopback_address(e) {
                    http_word()
                } else {
                    https_word()
                };
                assert((w + sep + e).last() == e.last());
                lemma_scheme_url_kept(w, e);
            } else {
                let enc = encode_query(encode_utf8(e));
                law_encoded_query_is_url_safe(encode_utf8(e));
                let rest = search_prefix().skip(8) + enc;
                let r = search_prefix() + enc;
                assert(r =~= https_word() + sep + rest);
                if enc.len() > 0 {
                    assert(r.last() == enc[enc.len() - 1]);
                    assert(is_query_char(enc[enc.len() - 1]));
                } else {
                    assert(r.last() == '=');
                }
                lemma_scheme_url_kept(https_word(), rest);
            }
        },
    }
}

/// A page opened from an address typed without a scheme is named after the
/// host it was typed with, both on its tab and in a bookmark made for it.
pub proof fn law_typed_domain_names_tab_and_bookmark(address: Seq<char>)
    requires
        find(trim(address), scheme_separator()) is None,
        trim(address).len() > 0,
        looks_like_url(trim(address)),
    ensures
        tab_label(normalized_address(address)->Ok_0) == authority(trim(address)),
        bookmark_title(normalized_address(address)->Ok_0) == authority(trim(address)),
{
    let e = trim(address);
    let sep = scheme_separator();
    let r = normalized_address(address)->Ok_0;
    if is_loopback_address(e) {
        assert(r == http_word() + sep + e);
        assert(r.take(7) =~= http_prefix());
        assert(r[4] != https_prefix()[4]);
        assert(!starts_with(r, https_prefix())) by {
            if starts_with(r, https_prefix()) {
                assert(r.take(8)[4] == https_prefix()[4]);
            }
        }
        assert(r.skip(7) =~= e);
    } else {
        assert(r == https_word() + sep + e);
        assert(r.take(8) =~= https_prefix());
        assert(r.skip(8) =~= e);
    }
    assert(without_scheme(r) == e);
}

/// Opening a new tab and closing it again gives back the tabs there were.
pub proof fn law_close_new_tab_restores_tabs(s: AppView)
    requires
        s.wf(),
    ensures
        close_tab_spec(add_tab_spec(s), s.tabs.len() as int).tabs == s.tabs,
        close_tab_spec(add_tab_spec(s), s.tabs.len() as int).bookmarks == s.bookmarks,
{
    assert(s.tabs.push(add_tab_spec(s).tabs.last()).remove(s.tabs.len() as int) =~= s.tabs);
}

/// Bookmarking a page that has no bookmark, then pressing the bookmark button
/// again, leaves the bookmarks as they were.
pub proof fn law_toggle_bookmark_twice(s: AppView, i: int)
    requires
        s.wf(),
        0 <= i < s.tabs.len(),
        is_web_address(s.tabs[i].address),
        !is_bookmarked(s.bookmarks, s.tabs[i].address),
    ensures
        is_bookmarked(toggle_bookmark_spec(s, i).0.bookmarks, s.tabs[i].address),
        toggle_bookmark_spec(toggle_bookmark_spec(s, i).0, i).0.bookmarks == s.bookmarks,
{
    let a = s.tabs[i].address;
    lemma_bookmark_index(s.bookmarks, a);
    let s1 = toggle_bookmark_spec(s, i).0;
    let pushed = s.bookmarks.push((bookmark_title(a), a));
    assert(s1.bookmarks == pushed);
    assert(s1.tabs[i].address == a);
    assert(pushed[s.bookmarks.len() as int].1 == a);
    lemma_bookmark_index(pushed, a);
    let k = bookmark_index(pushed, a)->0;
    assert(k == s.bookmarks.len()) by {
        if k < s.bookmarks.len() {
            assert(pushed[k] == s.bookmarks[k]);
        }
    }
    assert(pushed.remove(k) =~= s.bookmarks);
}

/// Where a page has at most one bookmark, the bookmark button flips whether
/// it has one.
pub proof fn law_toggle_bookmark_flips(s: AppView, i: int)
    requires
        s.wf(),
        0 <= i < s.tabs.len(),
        is_web_address(s.tabs[i].address),
        forall|j: int, k: int|
            0 <= j < s.bookmarks.len() && 0 <= k < s.bookmarks.len() && (#[trigger] s.bookmarks[j]).1
                == s.tabs[i].address && (#[trigger] s.bookmarks[k]).1 == s.tabs[i].address ==> j == k,
    ensures
        is_bookmarked(toggle_bookmark_spec(s, i).0.bookmarks, s.tabs[i].address) == !is_bookmarked(
            s.bookmarks,
            s.tabs[i].address,
        ),
{
    let a = s.tabs[i].address;
    lemma_bookmark_index(s.bookmarks, a);
    let after = toggle_bookmark_spec(s, i).0.bookmarks;
    match bookmark_index(s.bookmarks, a) {
        Some(k) => {
            assert(after == s.bookmarks.remove(k));
            assert(!is_bookmarked(after, a)) by {
                if is_bookmarked(after, a) {
                    let m = choose|m: int| 0 <= m < after.len() && (#[trigger] after[m]).1 == a;
                    if m < k {
                        assert(after[m] == s.bookmarks[m]);
                    } else {
                        assert(after[m] == s.bookmarks[m + 1]);
                    }
                }
            }
        },
        None => {
            let pushed = s.bookmarks.push((bookmark_title(a), a));
            assert(after == pushed);
            assert(pushed[s.bookmarks.len() as int].1 == a);
        },
    }
}

/// After the bookmarks of an address are deleted, none is left, and every
/// other bookmark stays, in order.
pub proof fn law_delete_bookmark_leaves_none(s: AppView, url: Seq<char>)
    ensures
        !is_bookmarked(delete_bookmark_spec(s, url).0.bookmarks, url),
        delete_bookmark_spec(s, url).0.bookmarks == s.bookmarks.filter(keeps(url)),
{
    let after = s.bookmarks.filter(keeps(url));
    assert(!is_bookmarked(after, url)) by {
        if is_bookmarked(after, url) {
            let m = choose|m: int| 0 <= m < after.len() && (#[trigger] after[m]).1 == url;
            s.bookmarks.lemma_filter_pred(keeps(url), m);
            assert(keeps(url)(after[m]));
        }
    }
}

/// A saved bookmark edit gives the bookmark a name without surrounding
/// whitespace that is not empty, and an `http://` or `https://` address that
/// the address bar would open unchanged.
pub proof fn law_saved_bookmark_edit(s: AppView, d: DraftView)
    requires
        save_bookmark_edit_spec(s, d).1 is SaveUserData,
    ensures
        ({
            let k = bookmark_index(s.bookmarks, d.original_url)->0;
            let b = save_bookmark_edit_spec(s, d).0.bookmarks[k];
            &&& 0 <= k < s.bookmarks.len()
            &&& b.0 == trim(d.title)
            &&& b.0.len() > 0
            &&& is_web_address(b.1)
            &&& normalized_address(b.1) == Ok::<Seq<char>, Seq<char>>(b.1)
        }),
{
    lemma_bookmark_index(s.bookmarks, d.original_url);
    let e = trim(d.url);
    law_normalized_address_is_stable(e);
    lemma_trim_idempotent(d.url);
    let u = normalized_address(e)->Ok_0;
    assert(normalized_address(u) == normalized_address(e));
}

/// Every bookmark has an `http://` or `https://` address.
pub open spec fn all_web_bookmarks(bs: Seq<(Seq<char>, Seq<char>)>) -> bool {
    forall|i: int| 0 <= i < bs.len() ==> is_web_address(#[trigger] bs[i].1)
}

/// The browser only ever bookmarks `http://` and `https://` addresses: where
/// every bookmark has one, every bookmark still has one after any action of
/// the window or any saved edit.
pub proof fn law_bookmarks_stay_web_addresses(s: AppView, action: UiAction, d: DraftView)
    requires
        s.wf(),
        all_web_bookmarks(s.bookmarks),
    ensures
        all_web_bookmarks(apply_action_spec(s, action).0.bookmarks),
        all_web_bookmarks(save_bookmark_edit_spec(s, d).0.bookmarks),
{
    let after = apply_action_spec(s, action).0.bookmarks;
    match action {
        UiAction::ToggleBookmark(i) => {
            if i < s.tabs.len() && is_web_address(s.tabs[i as int].address) {
                let a = s.tabs[i as int].address;
                lemma_bookmark_index(s.bookmarks, a);
                match bookmark_index(s.bookmarks, a) {
                    Some(k) => {
                        assert forall|m: int| 0 <= m < after.len() implies is_web_address(
                            #[trigger] after[m].1,
                        ) by {
                            if m < k {
                                assert(after[m] == s.bookmarks[m]);
                            } else {
                                assert(after[m] == s.bookmarks[m + 1]);
                            }
                        }
                    },
                    None => {
                        assert forall|m: int| 0 <= m < after.len() implies is_web_address(
                            #[trigger] after[m].1,
                        ) by {
                            if m < s.bookmarks.len() {
                                assert(after[m] == s.bookmarks[m]);
                            }
                        }
                    },
                }
            }
        },
        UiAction::DeleteBookmark(url) => {
            assert forall|m: int| 0 <= m < after.len() implies is_web_address(
                #[trigger] after[m].1,
            ) by {
                assert(after.contains(after[m]));
                s.bookmarks.lemma_filter_contains_rev(keeps(url@), after[m]);
                let j = choose|j: int| 0 <= j < s.bookmarks.len() && s.bookmarks[j] == after[m];
                assert(is_web_address(s.bookmarks[j].1));
            }
        },
        _ => {},
    }
    let edited = save_bookmark_edit_spec(s, d).0.bookmarks;
    lemma_bookmark_index(s.bookmarks, d.original_url);
    assert forall|m: int| 0 <= m < edited.len() implies is_web_address(#[trigger] edited[m].1) by {
        if edited != s.bookmarks {
            let k = bookmark_index(s.bookmarks, d.original_url)->0;
            if m != k {
                assert(edited[m] == s.bookmarks[m]);
            }
        }
    }
}

/// Tab `j` once only the shown tab's page view is visible.
pub open spec fn shown_only(s: AppView, j: int) -> TabView {
    if s.tabs[j].has_webview {
        TabView { webview_visible: j == s.active_tab, ..s.tabs[j] }
    } else {
        s.tabs[j]
    }
}

proof fn lemma_visibility_updates_upto(s: AppView, n: int)
    requires
        s.wf(),
        0 <= n <= s.tabs.len(),
    ensures
        ({
            let u = visibility_updates_upto(s, n);
            let t = apply_visibility_updates(s, u);
            &&& forall|k: int|
                0 <= k < u.len() ==> 0 <= (#[trigger] u[k]).0 < n && needs_visibility_change(
                    s,
                    u[k].0,
                ) && u[k].1 == (u[k].0 == s.active_tab)
            &&& t.tabs.len() == s.tabs.len()
            &&& t.active_tab == s.active_tab
            &&& t.next_tab_id == s.next_tab_id
            &&& t.bookmarks == s.bookmarks
            &&& t.editing == s.editing
            &&& forall|j: int| 0 <= j < n ==> #[trigger] t.tabs[j] == shown_only(s, j)
            &&& forall|j: int| n <= j < s.tabs.len() ==> #[trigger] t.tabs[j] == s.tabs[j]
        }),
    decreases n,
{
    if n > 0 {
        lemma_visibility_updates_upto(s, n - 1);
        let u0 = visibility_updates_upto(s, n - 1);
        let t0 = apply_visibility_updates(s, u0);
        if needs_visibility_change(s, n - 1) {
            let x = (n - 1, n - 1 == s.active_tab);
            let u = u0.push(x);
            assert(u.drop_last() =~= u0);
            assert(u.last() == x);
            let t = apply_visibility_updates(s, u);
            assert(t == t0.with_tab(
                n - 1,
                TabView { webview_visible: n - 1 == s.active_tab, ..t0.tabs[n - 1] },
            ));
            assert forall|k: int| 0 <= k < u.len() implies 0 <= (#[trigger] u[k]).0 < n
                && needs_visibility_change(s, u[k].0) && u[k].1 == (u[k].0 == s.active_tab) by {
                if k < u0.len() {
                    assert(u[k] == u0[k]);
                }
            }
            assert forall|j: int| 0 <= j < n implies #[trigger] t.tabs[j] == shown_only(s, j) by {
                if j < n - 1 {
                    assert(t.tabs[j] == t0.tabs[j]);
                } else {
                    assert(t0.tabs[n - 1] == s.tabs[n - 1]);
                    assert(t.tabs[j] =~= shown_only(s, j));
                }
            }
        } else {
            assert(visibility_updates_upto(s, n) == u0);
            assert(t0.tabs[n - 1] == s.tabs[n - 1]);
            assert forall|j: int| 0 <= j < n implies #[trigger] t0.tabs[j] == shown_only(s, j) by {
                if j == n - 1 {
                    assert(t0.tabs[j] =~= shown_only(s, j));
                }
            }
        }
    }
}

/// Inactive page views are hidden: once the window has carried out every
/// update that `visibility_updates` asks for, and each succeeded, exactly the
/// shown tab's page view is visible and nothing else has changed. Each update
/// is for a tab with a page view whose visibility differs from the one asked.
pub proof fn law_visibility_updates_show_only_active(s: AppView)
    requires
        s.wf(),
    ensures
        ({
            let u = visibility_updates_upto(s, s.tabs.len() as int);
            let t = apply_visibility_updates(s, u);
            &&& forall|k: int|
                0 <= k < u.len() ==> 0 <= (#[trigger] u[k]).0 < s.tabs.len()
                    && s.tabs[u[k].0].has_webview && s.tabs[u[k].0].webview_visible != u[k].1
            &&& t == AppView { tabs: Seq::new(s.tabs.len(), |j: int| shown_only(s, j)), ..s }
            &&& forall|j: int|
                0 <= j < t.tabs.len() && (#[trigger] t.tabs[j]).has_webview ==> t.tabs[j].webview_visible
                    == (j == t.active_tab)
        }),
{
    let n = s.tabs.len() as int;
    lemma_visibility_updates_upto(s, n);
    let u = visibility_updates_upto(s, n);
    let t = apply_visibility_updates(s, u);
    assert(t.tabs =~= Seq::new(s.tabs.len(), |j: int| shown_only(s, j)));
    assert(t =~= AppView { tabs: Seq::new(s.tabs.len(), |j: int| shown_only(s, j)), ..s });
    assert forall|k: int| 0 <= k < u.len() implies 0 <= (#[trigger] u[k]).0 < s.tabs.len()
        && s.tabs[u[k].0].has_webview && s.tabs[u[k].0].webview_visible != u[k].1 by {
        assert(needs_visibility_change(s, u[k].0));
    }
    assert forall|j: int| 0 <= j < t.tabs.len() && (#[trigger] t.tabs[j]).has_webview implies t.tabs[j].webview_visible
        == (j == t.active_tab) by {
        assert(t.tabs[j] == shown_only(s, j));
    }
}

/// An ASCII letter, small or capital, or an ASCII digit.
pub open spec fn ascii_letter_or_digit(c: char) -> bool {
    let u = c as u32;
    0x30 <= u <= 0x39 || 0x41 <= u <= 0x5a || 0x61 <= u <= 0x7a
}

/// `l` with its ASCII capitals made small.
pub open spec fn ascii_lowercase(l: Seq<char>) -> Seq<char> {
    Seq::new(l.len(), |i: int| (ascii_lower(l[i])) as char)
}

/// What a domain label may hold: letters (small or capital) and digits, and
/// hyphens except at either end; beyond ASCII, what `char::is_alphanumeric`
/// accepts.
pub proof fn law_label_characters(l: Seq<char>)
    ensures
        is_label(l) <==> {
            &&& l.len() > 0
            &&& l[0] != '-'
            &&& l.last() != '-'
            &&& forall|i: int|
                0 <= i < l.len() ==> ascii_letter_or_digit(#[trigger] l[i]) || l[i] == '-' || ((
                l[i] as u32) >= 0x80 && unicode_alphanumeric(l[i]))
        },
{
}

/// Whether text is a domain label does not depend on the case of its ASCII letters.
pub proof fn law_label_ignores_ascii_case(l: Seq<char>)
    ensures
        is_label(l) == is_label(ascii_lowercase(l)),
{
    let m = ascii_lowercase(l);
    law_label_characters(l);
    law_label_characters(m);
    assert forall|i: int| 0 <= i < l.len() implies {
        &&& (m[i] == '-') == (l[i] == '-')
        &&& ascii_letter_or_digit(m[i]) == ascii_letter_or_digit(l[i])
        &&& ((l[i] as u32) >= 0x80 ==> m[i] == l[i])
        &&& ((l[i] as u32) < 0x80 ==> (m[i] as u32) < 0x80)
    } by {
        let u = l[i] as u32;
        if 0x41 <= u <= 0x5a {
            assert((((u + 0x20) as u32) as char) as u32 == u + 0x20);
        } else {
            vstd::utf8::char_u32_cast(l[i], u);
        }
    }
    if l.len() > 0 {
        assert(m[0] == ascii_lowercase(l)[0]);
        assert(m.last() == m[m.len() - 1]);
    }
}

/// Text made of dot-separated labels of ASCII letters (either case), digits
/// and inner hyphens, with at least two labels, is opened directly rather
/// than searched for.
pub proof fn law_ascii_domains_open_directly(h: Seq<char>)
    requires
        split(h, '.').len() >= 2,
        forall|j: int|
            0 <= j < split(h, '.').len() ==> {
                let l = #[trigger] split(h, '.')[j];
                &&& l.len() > 0
                &&& l[0] != '-'
                &&& l.last() != '-'
                &&& forall|k: int| 0 <= k < l.len() ==> ascii_letter_or_digit(l[k]) || l[k] == '-'
            },
    ensures
        looks_like_url(h),
{
    let parts = split(h, '.');
    assert forall|i: int| 0 <= i < h.len() implies h[i] == '.' || ascii_letter_or_digit(h[i])
        || h[i] == '-' by {
        if h[i] != '.' {
            lemma_split_covers(h, '.', i);
            let (j, k) = choose|j: int, k: int|
                0 <= j < parts.len() && 0 <= k < parts[j].len() && #[trigger] parts[j][k] == h[i];
            assert(parts[j][k] == h[i]);
        }
    }
    lemma_split_many_has_sep(h, '.');
    assert(!has_white_space(h));
    lemma_authority_whole(h, 0);
    assert(h.take(h.len() as int) =~= h);
    assert(!h.contains('@'));
    assert(!h.contains(':'));
    lemma_rfind_absent(h, ':', h.len() as int);
    assert(host_without_port(h) == h);
    assert forall|j: int| 0 <= j < parts.len() implies is_label(#[trigger] parts[j]) by {
        law_label_characters(parts[j]);
    }
    assert(is_domain(h));
    assert(h[0] != '[');
}

proof fn lemma_find_absent(s: Seq<char>, pat: Seq<char>, start: int)
    requires
        0 <= start,
        pat.len() > 0,
        !s.contains(pat[0]),
    ensures
        find_from(s, pat, start) is None,
    decreases s.len() + 1 - start,
{
    if start + pat.len() <= s.len() {
        assert(s.subrange(start, start + pat.len())[0] == s[start]);
        lemma_find_absent(s, pat, start + 1);
    }
}

/// An IPv4 address names this machine exactly when its first octet is 127;
/// the address bar opens it directly, over `http` then and `https` otherwise.
pub proof fn law_ipv4_loopback_is_127(h: Seq<char>)
    requires
        parse_ipv4(h) is Some,
    ensures
        is_loopback_address(h) == (parse_ipv4(h)->0[0] == 127),
        looks_like_url(h),
        normalized_address(h) == Ok::<Seq<char>, Seq<char>>(
            (if parse_ipv4(h)->0[0] == 127 {
                http_word()
            } else {
                https_word()
            }) + scheme_separator() + h,
        ),
{
    let parts = split(h, '.');
    assert forall|i: int| 0 <= i < h.len() implies h[i] == '.' || (0x30 <= (h[i] as u32) <= 0x39) by {
        if h[i] != '.' {
            lemma_split_covers(h, '.', i);
            let (j, k) = choose|j: int, k: int|
                0 <= j < parts.len() && 0 <= k < parts[j].len() && #[trigger] parts[j][k] == h[i];
            assert(is_octet(parts[j]));
            assert(all_digits(parts[j]));
            assert(parts[j][k] == h[i]);
        }
    }
    lemma_split_many_has_sep(h, '.');
    assert(!has_white_space(h));
    lemma_authority_whole(h, 0);
    assert(h.take(h.len() as int) =~= h);
    assert(!h.contains('@'));
    assert(!h.contains(':'));
    lemma_rfind_absent(h, ':', h.len() as int);
    assert(host_without_port(h) == h);
    assert(!eq_ignore_ascii_case(h, localhost())) by {
        if eq_ignore_ascii_case(h, localhost()) {
            assert(ascii_lower(h[0]) == ascii_lower(localhost()[0]));
        }
    }
    assert(h[0] != '[');
    lemma_trim_clean(h);
    lemma_find_absent(h, scheme_separator(), 0);
}

/// Closing a tab removes exactly that tab. Where it was the shown one, the
/// tab that followed it is shown, or the one before it where it was last;
/// otherwise the same tab stays shown.
pub proof fn law_close_tab_shows_neighbour(s: AppView, i: int)
    requires
        s.wf(),
        s.tabs.len() > 1,
        0 <= i < s.tabs.len(),
    ensures
        ({
            let t = close_tab_spec(s, i);
            &&& t.tabs == s.tabs.remove(i)
            &&& 0 <= t.active_tab < t.tabs.len()
            &&& s.active_tab == i ==> t.active_tab == (if i < s.tabs.len() - 1 {
                i
            } else {
                s.tabs.len() - 2
            })
            &&& s.active_tab == i ==> t.tabs[t.active_tab] == (if i + 1 < s.tabs.len() {
                s.tabs[i + 1]
            } else {
                s.tabs[i - 1]
            })
            &&& s.active_tab != i ==> t.tabs[t.active_tab] == s.tabs[s.active_tab]
        }),
{
}

/// Deleting the bookmarks of `url` keeps every bookmark with another address,
/// and keeps nothing else.
pub proof fn law_delete_keeps_other_bookmarks(s: AppView, url: Seq<char>)
    ensures
        ({
            let r = delete_bookmark_spec(s, url).0.bookmarks;
            &&& forall|j: int|
                0 <= j < s.bookmarks.len() && (#[trigger] s.bookmarks[j]).1 != url ==> r.contains(
                    s.bookmarks[j],
                )
            &&& forall|m: int|
                0 <= m < r.len() ==> s.bookmarks.contains(#[trigger] r[m]) && r[m].1 != url
        }),
{
    let r = s.bookmarks.filter(keeps(url));
    assert forall|j: int| 0 <= j < s.bookmarks.len() && (#[trigger] s.bookmarks[j]).1 != url implies r.contains(
        s.bookmarks[j],
    ) by {
        assert(keeps(url)(s.bookmarks[j]));
        s.bookmarks.lemma_filter_contains(keeps(url), j);
    }
    assert forall|m: int| 0 <= m < r.len() implies s.bookmarks.contains(#[trigger] r[m]) && r[m].1
        != url by {
        s.bookmarks.lemma_filter_pred(keeps(url), m);
        assert(r.contains(r[m]));
        s.bookmarks.lemma_filter_contains_rev(keeps(url), r[m]);
    }
}

proof fn lemma_tab_index_of_id(s: AppView, i: int, start: int)
    requires
        s.wf(),
        0 <= start <= i < s.tabs.len(),
    ensures
        tab_index_from(s.tabs, s.tabs[i].id, start) == Some(i),
    decreases i - start,
{
    if start < i {
        assert(s.tabs[start].id != s.tabs[i].id);
        lemma_tab_index_of_id(s, i, start + 1);
    }
}

/// A finished load of any `http://` or `https://` address becomes the
/// address of the tab it happened in, which says "Page loaded."; other tabs
/// are untouched. A finished load of anything else changes nothing.
pub proof fn law_page_load_finished(s: AppView, i: int, a: Seq<char>)
    requires
        s.wf(),
        0 <= i < s.tabs.len(),
    ensures
        ({
            let t = page_load_spec(s, s.tabs[i].id, PageLoad::Finished, a);
            let web = starts_with(a, seq!['h', 't', 't', 'p', ':', '/', '/']) || starts_with(
                a,
                seq!['h', 't', 't', 'p', 's', ':', '/', '/'],
            );
            &&& t.tabs.len() == s.tabs.len()
            &&& web ==> t.tabs[i].address == a && t.tabs[i].status == "Page loaded."@
            &&& web ==> forall|j: int| 0 <= j < s.tabs.len() && j != i ==> #[trigger] t.tabs[j] == s.tabs[j]
            &&& !web ==> t == s
        }),
{
    lemma_tab_index_of_id(s, i, 0);
    assert(http_prefix() =~= seq!['h', 't', 't', 'p', ':', '/', '/']);
    assert(https_prefix() =~= seq!['h', 't', 't', 'p', 's', ':', '/', '/']);
}

/// A started load shows, in its tab's status line, the address being loaded,
/// except for `about:blank`; nothing else changes.
pub proof fn law_page_load_started(s: AppView, i: int, a: Seq<char>)
    requires
        s.wf(),
        0 <= i < s.tabs.len(),
    ensures
        ({
            let t = page_load_spec(s, s.tabs[i].id, PageLoad::Started, a);
            &&& a != "about:blank"@ ==> t == s.with_status(i, "Loading "@ + a + "…"@)
            &&& a == "about:blank"@ ==> t == s
        }),
{
    lemma_tab_index_of_id(s, i, 0);
}

/// The pages that can be bookmarked, and whose finished loads update the
/// address bar, are exactly those whose address begins with `http://` or
/// `https://`, in small letters.
pub proof fn law_web_address_prefixes(a: Seq<char>)
    ensures
        is_web_address(a) <==> (starts_with(a, seq!['h', 't', 't', 'p', ':', '/', '/'])
            || starts_with(a, seq!['h', 't', 't', 'p', 's', ':', '/', '/'])),
{
    assert(http_prefix() =~= seq!['h', 't', 't', 'p', ':', '/', '/']);
    assert(https_prefix() =~= seq!['h', 't', 't', 'p', 's', ':', '/', '/']);
}

/// A new tab goes after the others with an id no tab has had, is shown, and
/// offers its choices; the other tabs are untouched.
pub proof fn law_add_tab_appends_fresh_tab(s: AppView)
    requires
        s.wf(),
        s.next_tab_id < u64::MAX,
    ensures
        ({
            let t = add_tab_spec(s);
            &&& t.tabs.len() == s.tabs.len() + 1
            &&& forall|j: int| 0 <= j < s.tabs.len() ==> #[trigger] t.tabs[j] == s.tabs[j]
            &&& t.active_tab == s.tabs.len()
            &&& forall|j: int| 0 <= j < s.tabs.len() ==> #[trigger] s.tabs[j].id != t.tabs[t.active_tab].id
            &&& t.tabs[t.active_tab].new_tab_chooser
            &&& t.tabs[t.active_tab].address.len() == 0
            &&& t.tabs[t.active_tab].pending_url is None
            &&& !t.tabs[t.active_tab].has_webview
            &&& t.bookmarks == s.bookmarks
        }),
{
}

/// Closing the only tab, whatever the index asked for, leaves one new tab with
/// an id no tab has had, shown and offering its choices.
pub proof fn law_close_only_tab(s: AppView, i: int)
    requires
        s.wf(),
        s.tabs.len() == 1,
        s.next_tab_id < u64::MAX,
    ensures
        ({
            let t = close_tab_spec(s, i);
            &&& t.tabs.len() == 1
            &&& t.active_tab == 0
            &&& t.tabs[0].id != s.tabs[0].id
            &&& t.tabs[0].id == s.next_tab_id
            &&& t.next_tab_id == s.next_tab_id + 1
            &&& t.tabs[0].new_tab_chooser
            &&& t.tabs[0].address.len() == 0
            &&& t.tabs[0].pending_url is None
            &&& !t.tabs[0].has_webview
            &&& t.bookmarks == s.bookmarks
        }),
{
}

} // verus!
