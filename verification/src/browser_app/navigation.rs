//! What the address bar makes of its text: an explicit HTTP(S) address, a bare
//! domain or local address to open directly, or a DuckDuckGo search.
use vstd::prelude::*;
use vstd::utf8::encode_utf8;

use super::tabs::TabView;
use super::{AppView, BrowserApp, Effect, EffectView};
use crate::ip::{
    ipv6_loopback, is_port, parse_ipv4, parse_ipv4_chars, parse_ipv6, parse_ipv6_chars,
    parse_port,
};
use crate::text::{
    chars_eq_ignore_ascii_case, chars_of, chars_start_with, concat, contains_char,
    eq_ignore_ascii_case, find, find_chars, has_white_space, is_white_space, is_whitespace, rfind,
    rfind_char, split, split_chars, starts_with, string_of, sub_chars, trim, trim_chars, views,
};

verus! {

/// The page a new browser window opens.
pub open spec fn start_page() -> Seq<char> {
    seq![
        'h', 't', 't', 'p', 's', ':', '/', '/', 'd', 'u', 'c', 'k', 'd', 'u', 'c', 'k', 'g', 'o',
        '.', 'c', 'o', 'm',
    ]
}

/// What a search is appended to.
pub open spec fn search_prefix() -> Seq<char> {
    start_page() + seq!['/', '?', 'q', '=']
}

pub open spec fn http_word() -> Seq<char> {
    seq!['h', 't', 't', 'p']
}

pub open spec fn https_word() -> Seq<char> {
    seq!['h', 't', 't', 'p', 's']
}

pub open spec fn scheme_separator() -> Seq<char> {
    seq![':', '/', '/']
}

pub open spec fn https_prefix() -> Seq<char> {
    https_word() + scheme_separator()
}

pub open spec fn http_prefix() -> Seq<char> {
    http_word() + scheme_separator()
}

/// An address that begins with `http://` or `https://`, in small letters.
pub open spec fn is_web_address(a: Seq<char>) -> bool {
    starts_with(a, http_prefix()) || starts_with(a, https_prefix())
}

/// An address without a leading `https://` or `http://`.
pub open spec fn without_scheme(a: Seq<char>) -> Seq<char> {
    if starts_with(a, https_prefix()) {
        a.skip(8)
    } else if starts_with(a, http_prefix()) {
        a.skip(7)
    } else {
        a
    }
}

/// The host that an address names: what follows its scheme, up to the first
/// `/`, `?` or `#`.
pub open spec fn host_of(a: Seq<char>) -> Seq<char> {
    authority(without_scheme(a))
}

pub open spec fn localhost() -> Seq<char> {
    seq!['l', 'o', 'c', 'a', 'l', 'h', 'o', 's', 't']
}

/// The characters that end the host part of an address.
pub open spec fn ends_authority(c: char) -> bool {
    c == '/' || c == '?' || c == '#'
}

pub open spec fn authority_end_from(s: Seq<char>, i: int) -> int
    decreases s.len() - i,
{
    if i < 0 || i >= s.len() {
        s.len() as int
    } else if ends_authority(s[i]) {
        i
    } else {
        authority_end_from(s, i + 1)
    }
}

/// The part of an address before its first `/`, `?` or `#`.
pub open spec fn authority(s: Seq<char>) -> Seq<char> {
    s.take(authority_end_from(s, 0))
}

/// Without `/`, `?` or `#`, the whole text is its authority.
pub proof fn lemma_authority_whole(s: Seq<char>, i: int)
    requires
        0 <= i <= s.len(),
        forall|k: int| 0 <= k < s.len() ==> !ends_authority(#[trigger] s[k]),
    ensures
        authority_end_from(s, i) == s.len(),
    decreases s.len() - i,
{
    if i < s.len() {
        assert(!ends_authority(s[i]));
        lemma_authority_whole(s, i + 1);
    }
}

/// The host of an authority: without a trailing `:port` where what follows the
/// last `:` is a port number.
pub open spec fn host_without_port(a: Seq<char>) -> Seq<char> {
    match rfind(a, ':') {
        Some(j) => if is_port(a.skip(j + 1)) {
            a.take(j)
        } else {
            a
        },
        None => a,
    }
}

/// `char::is_alphanumeric`: the Unicode `Alphabetic` or `Numeric` property.
pub uninterp spec fn unicode_alphanumeric(c: char) -> bool;

/// An ASCII letter or digit.
pub open spec fn is_ascii_alphanumeric(c: char) -> bool {
    let u = c as u32;
    0x30 <= u <= 0x39 || 0x41 <= u <= 0x5a || 0x61 <= u <= 0x7a
}

/// A letter or digit in the sense of `char::is_alphanumeric`: among ASCII
/// characters exactly `A`–`Z`, `a`–`z` and `0`–`9`; beyond ASCII the Unicode
/// `Alphabetic` or `Numeric` property.
pub open spec fn is_alphanumeric_char(c: char) -> bool {
    if (c as u32) < 0x80 {
        is_ascii_alphanumeric(c)
    } else {
        unicode_alphanumeric(c)
    }
}

/// One dot-separated label of a domain name.
pub open spec fn is_label(l: Seq<char>) -> bool {
    &&& l.len() > 0
    &&& l[0] != '-'
    &&& l.last() != '-'
    &&& forall|i: int| 0 <= i < l.len() ==> is_alphanumeric_char(#[trigger] l[i]) || l[i] == '-'
}

/// A domain name: at least two labels, separated by dots.
pub open spec fn is_domain(h: Seq<char>) -> bool {
    &&& h.contains('.')
    &&& forall|i: int| 0 <= i < split(h, '.').len() ==> is_label(#[trigger] split(h, '.')[i])
}

/// After a `[`: an IPv6 address, a `]`, and then nothing or `:port`.
pub open spec fn is_bracketed_host(rest: Seq<char>) -> bool {
    match find(rest, seq![']']) {
        None => false,
        Some(j) => {
            let suffix = rest.skip(j + 1);
            &&& parse_ipv6(rest.take(j)) is Some
            &&& suffix.len() == 0 || (suffix[0] == ':' && is_port(suffix.drop_first()))
        },
    }
}

/// Text that the address bar opens directly rather than searching for: it has
/// no whitespace, and its authority has no `@` and is a bracketed IPv6 address,
/// `localhost`, an IPv4 address or a domain name, with an optional port.
pub open spec fn looks_like_url(input: Seq<char>) -> bool {
    if has_white_space(input) {
        false
    } else {
        let a = authority(input);
        if a.len() == 0 || a.contains('@') {
            false
        } else if a[0] == '[' {
            is_bracketed_host(a.drop_first())
        } else {
            let h = host_without_port(a);
            eq_ignore_ascii_case(h, localhost()) || parse_ipv4(h) is Some || is_domain(h)
        }
    }
}

/// The address names this machine: `localhost`, `127.x.x.x` or `[::1]`.
pub open spec fn is_loopback_address(input: Seq<char>) -> bool {
    let a = authority(input);
    if a.len() > 0 && a[0] == '[' {
        match find(a.drop_first(), seq![']']) {
            None => false,
            Some(j) => parse_ipv6(a.drop_first().take(j)) == Some(ipv6_loopback()),
        }
    } else {
        let h = host_without_port(a);
        eq_ignore_ascii_case(h, localhost()) || (parse_ipv4(h) matches Some(o) && o[0] == 127)
    }
}

/// Bytes that stand for themselves in a search query.
pub open spec fn is_unreserved(b: u8) -> bool {
    ||| 0x41 <= b <= 0x5a
    ||| 0x61 <= b <= 0x7a
    ||| 0x30 <= b <= 0x39
    ||| b == 0x2a
    ||| b == 0x2d
    ||| b == 0x2e
    ||| b == 0x5f
}

/// The hexadecimal digit for `n < 16`, in upper case.
pub open spec fn hex_upper(n: u8) -> char {
    if n < 10 {
        (n + 0x30) as char
    } else {
        (n - 10 + 0x41) as char
    }
}

/// How one byte of a search query is written: itself, `+` for a space, or `%XX`.
pub open spec fn encode_byte(b: u8) -> Seq<char> {
    if is_unreserved(b) {
        seq![b as char]
    } else if b == 0x20 {
        seq!['+']
    } else {
        seq!['%', hex_upper(b / 16), hex_upper(b % 16)]
    }
}

/// A search query's bytes written for a URL, byte by byte.
pub open spec fn encode_query(bytes: Seq<u8>) -> Seq<char>
    decreases bytes.len(),
{
    if bytes.len() == 0 {
        Seq::empty()
    } else {
        encode_query(bytes.drop_last()) + encode_byte(bytes.last())
    }
}

/// What the address bar makes of `address`: an address to open, or the
/// message to show instead.
pub open spec fn normalized_address(address: Seq<char>) -> Result<Seq<char>, Seq<char>> {
    let e = trim(address);
    if e.len() == 0 {
        Err("Enter an HTTP or HTTPS address first."@)
    } else {
        match find(e, scheme_separator()) {
            Some(i) => if eq_ignore_ascii_case(e.take(i), http_word()) || eq_ignore_ascii_case(
                e.take(i),
                https_word(),
            ) {
                Ok(e)
            } else {
                Err("Only HTTP and HTTPS addresses are supported."@)
            },
            None => if looks_like_url(e) {
                let scheme = if is_loopback_address(e) {
                    http_word()
                } else {
                    https_word()
                };
                Ok(scheme + scheme_separator() + e)
            } else {
                Ok(search_prefix() + encode_query(encode_utf8(e)))
            },
        }
    }
}

/// The status line while `address` is being opened.
pub open spec fn loading_message(address: Seq<char>) -> Seq<char> {
    "Loading "@ + address + "…"@
}

/// Tab `i` set to open `address`: its address bar shows it, and the page view
/// opens it, or opens it once it exists.
pub open spec fn navigate_to_url_spec(s: AppView, i: int, address: Seq<char>) -> (AppView, EffectView) {
    let t = s.tabs[i];
    let t2 = TabView {
        address,
        new_tab_chooser: false,
        status: loading_message(address),
        pending_url: if t.has_webview {
            t.pending_url
        } else {
            Some(address)
        },
        ..t
    };
    (
        s.with_tab(i, t2),
        if t.has_webview {
            EffectView::LoadUrl { tab_index: i, url: address }
        } else {
            EffectView::Nothing
        },
    )
}

/// Tab `i` set to open what was typed, or showing why it cannot.
pub open spec fn navigate_spec(s: AppView, i: int, input: Seq<char>) -> (AppView, EffectView) {
    match normalized_address(input) {
        Ok(address) => navigate_to_url_spec(s, i, address),
        Err(message) => (s.with_status(i, message), EffectView::Nothing),
    }
}

pub open spec fn result_view(r: Result<String, String>) -> Result<Seq<char>, Seq<char>> {
    match r {
        Ok(s) => Ok(s@),
        Err(e) => Err(e@),
    }
}

/// `char::is_alphanumeric`: the `Alphabetic` or `Numeric` property. Among
/// ASCII characters these are exactly the letters and the digits; what it is
/// beyond ASCII is left to the name.
#[verifier::external_body]
fn is_alphanumeric(c: char) -> (r: bool)
    ensures
        r == unicode_alphanumeric(c),
        (c as u32) < 0x80 ==> r == is_ascii_alphanumeric(c),
{
    c.is_alphanumeric()
}

pub fn start_page_chars() -> (v: Vec<char>)
    ensures
        v@ == start_page(),
{
    let v = vec![
        'h', 't', 't', 'p', 's', ':', '/', '/', 'd', 'u', 'c', 'k', 'd', 'u', 'c', 'k', 'g', 'o',
        '.', 'c', 'o', 'm',
    ];
    assert(v@ =~= start_page());
    v
}

/// Where the host part of `s` ends.
fn authority_end(s: &[char]) -> (r: usize)
    ensures
        r as int == authority_end_from(s@, 0),
        r <= s@.len(),
{
    let mut i: usize = 0;
    while i < s.len()
        invariant
            i <= s@.len(),
            authority_end_from(s@, 0) == authority_end_from(s@, i as int),
        decreases s.len() - i,
    {
        if s[i] == '/' || s[i] == '?' || s[i] == '#' {
            return i;
        }
        i = i + 1;
    }
    i
}

pub fn https_prefix_chars() -> (v: [char; 8])
    ensures
        v@ == https_prefix(),
{
    let v = ['h', 't', 't', 'p', 's', ':', '/', '/'];
    assert(v@ =~= https_prefix());
    v
}

pub fn http_prefix_chars() -> (v: [char; 7])
    ensures
        v@ == http_prefix(),
{
    let v = ['h', 't', 't', 'p', ':', '/', '/'];
    assert(v@ =~= http_prefix());
    v
}

/// Whether `a` begins with `http://` or `https://`.
pub fn is_web_address_chars(a: &[char]) -> (r: bool)
    ensures
        r == is_web_address(a@),
{
    let http = http_prefix_chars();
    let https = https_prefix_chars();
    chars_start_with(a, &http) || chars_start_with(a, &https)
}

/// The host that address `a` names.
pub fn host_of_chars(a: &[char]) -> (h: Vec<char>)
    ensures
        h@ == host_of(a@),
{
    let http = http_prefix_chars();
    let https = https_prefix_chars();
    let rest = if chars_start_with(a, &https) {
        sub_chars(a, 8, a.len())
    } else if chars_start_with(a, &http) {
        sub_chars(a, 7, a.len())
    } else {
        sub_chars(a, 0, a.len())
    };
    assert(rest@ =~= without_scheme(a@));
    let end = authority_end(&rest);
    let h = sub_chars(&rest, 0, end);
    assert(h@ =~= host_of(a@));
    h
}

fn host_without_port_chars(a: &[char]) -> (h: Vec<char>)
    ensures
        h@ == host_without_port(a@),
{
    match rfind_char(a, ':') {
        Some(j) => {
            let n = a.len();
            let port = sub_chars(a, j + 1, n);
            assert(port@ =~= a@.skip(j + 1));
            if parse_port(&port) {
                sub_chars(a, 0, j)
            } else {
                sub_chars(a, 0, a.len())
            }
        },
        None => sub_chars(a, 0, a.len()),
    }
}

fn localhost_chars() -> (v: [char; 9])
    ensures
        v@ == localhost(),
{
    let v = ['l', 'o', 'c', 'a', 'l', 'h', 'o', 's', 't'];
    assert(v@ =~= localhost());
    v
}

fn is_label_chars(l: &[char]) -> (r: bool)
    ensures
        r == is_label(l@),
{
    if l.len() == 0 || l[0] == '-' || l[l.len() - 1] == '-' {
        return false;
    }
    let mut i: usize = 0;
    while i < l.len()
        invariant
            i <= l@.len(),
            forall|k: int| 0 <= k < i ==> is_alphanumeric_char(#[trigger] l@[k]) || l@[k] == '-',
        decreases l.len() - i,
    {
        if !(is_alphanumeric(l[i]) || l[i] == '-') {
            return false;
        }
        i = i + 1;
    }
    true
}

fn is_domain_chars(h: &[char]) -> (r: bool)
    ensures
        r == is_domain(h@),
{
    if !contains_char(h, '.') {
        return false;
    }
    let labels = split_chars(h, '.');
    let mut i: usize = 0;
    while i < labels.len()
        invariant
            views(labels@) == split(h@, '.'),
            i <= labels@.len(),
            forall|k: int| 0 <= k < i ==> is_label(#[trigger] split(h@, '.')[k]),
        decreases labels.len() - i,
    {
        let ok = is_label_chars(labels[i].as_slice());
        assert(labels@[i as int]@ == split(h@, '.')[i as int]);
        if !ok {
            return false;
        }
        i = i + 1;
    }
    true
}

fn has_whitespace_chars(s: &[char]) -> (r: bool)
    ensures
        r == has_white_space(s@),
{
    let mut i: usize = 0;
    while i < s.len()
        invariant
            i <= s@.len(),
            forall|k: int| 0 <= k < i ==> !is_white_space(#[trigger] s@[k]),
        decreases s.len() - i,
    {
        if is_whitespace(s[i]) {
            return true;
        }
        i = i + 1;
    }
    false
}

fn is_bracketed_host_chars(rest: &[char]) -> (r: bool)
    ensures
        r == is_bracketed_host(rest@),
{
    let close = [']'];
    assert(close@ =~= seq![']']);
    match find_chars(rest, &close) {
        None => false,
        Some(j) => {
            proof {
                crate::ip::lemma_find_bounds(rest@, seq![']'], 0);
            }
            let n = rest.len();
            let host = sub_chars(rest, 0, j);
            let suffix = sub_chars(rest, j + 1, n);
            assert(host@ =~= rest@.take(j as int));
            assert(suffix@ =~= rest@.skip(j + 1));
            if parse_ipv6_chars(&host).is_none() {
                return false;
            }
            if suffix.len() == 0 {
                return true;
            }
            if suffix[0] != ':' {
                return false;
            }
            let port = sub_chars(&suffix, 1, suffix.len());
            assert(port@ =~= suffix@.drop_first());
            parse_port(&port)
        },
    }
}

/// Whether `input` is opened directly rather than searched for.
pub fn looks_like_url_chars(input: &[char]) -> (r: bool)
    ensures
        r == looks_like_url(input@),
{
    if has_whitespace_chars(input) {
        return false;
    }
    let end = authority_end(input);
    let a = sub_chars(input, 0, end);
    assert(a@ =~= authority(input@));
    if a.len() == 0 || contains_char(&a, '@') {
        return false;
    }
    if a[0] == '[' {
        let rest = sub_chars(&a, 1, a.len());
        assert(rest@ =~= a@.drop_first());
        return is_bracketed_host_chars(&rest);
    }
    let h = host_without_port_chars(&a);
    let lh = localhost_chars();
    chars_eq_ignore_ascii_case(&h, &lh) || parse_ipv4_chars(&h).is_some() || is_domain_chars(&h)
}

/// Whether `input` names this machine.
pub fn is_loopback_chars(input: &[char]) -> (r: bool)
    ensures
        r == is_loopback_address(input@),
{
    let end = authority_end(input);
    let a = sub_chars(input, 0, end);
    assert(a@ =~= authority(input@));
    if a.len() > 0 && a[0] == '[' {
        let rest = sub_chars(&a, 1, a.len());
        assert(rest@ =~= a@.drop_first());
        let close = [']'];
        assert(close@ =~= seq![']']);
        return match find_chars(&rest, &close) {
            None => false,
            Some(j) => {
                proof {
                    crate::ip::lemma_find_bounds(rest@, seq![']'], 0);
                }
                let host = sub_chars(&rest, 0, j);
                assert(host@ =~= rest@.take(j as int));
                match parse_ipv6_chars(&host) {
                    None => false,
                    Some(g) => {
                        let ghost gi = crate::ip::ints(g@);
                        assert(gi.len() == 8);
                        assert(forall|k: int| 0 <= k < 8 ==> gi[k] == g@[k] as int);
                        let r = g.len() == 8 && g[0] == 0 && g[1] == 0 && g[2] == 0 && g[3] == 0
                            && g[4] == 0 && g[5] == 0 && g[6] == 0 && g[7] == 1;
                        assert(r ==> crate::ip::ints(g@) =~= ipv6_loopback());
                        assert(gi == ipv6_loopback() ==> r) by {
                            if gi == ipv6_loopback() {
                                assert(gi[0] == 0 && gi[1] == 0 && gi[2] == 0 && gi[3] == 0);
                                assert(gi[4] == 0 && gi[5] == 0 && gi[6] == 0 && gi[7] == 1);
                            }
                        }
                        r
                    },
                }
            },
        };
    }
    let h = host_without_port_chars(&a);
    let lh = localhost_chars();
    if chars_eq_ignore_ascii_case(&h, &lh) {
        return true;
    }
    match parse_ipv4_chars(&h) {
        Some(o) => {
            assert(crate::ip::ints(o@).len() == 4);
            assert(crate::ip::ints(o@)[0] == o@[0] as int);
            o[0] == 127
        },
        None => false,
    }
}

fn hex_upper_char(n: u8) -> (c: char)
    requires
        n < 16,
    ensures
        c == hex_upper(n),
{
    if n < 10 {
        (n + 0x30) as char
    } else {
        (n - 10 + 0x41) as char
    }
}

/// `bytes` written for a URL.
fn encode_bytes(bytes: &[u8]) -> (r: Vec<char>)
    ensures
        r@ == encode_query(bytes@),
{
    let mut out: Vec<char> = Vec::new();
    let mut i: usize = 0;
    assert(bytes@.take(0) =~= Seq::<u8>::empty());
    while i < bytes.len()
        invariant
            i <= bytes@.len(),
            out@ == encode_query(bytes@.take(i as int)),
        decreases bytes.len() - i,
    {
        let b = bytes[i];
        assert(bytes@.take(i + 1).drop_last() =~= bytes@.take(i as int));
        let ghost before = out@;
        if (0x41 <= b && b <= 0x5a) || (0x61 <= b && b <= 0x7a) || (0x30 <= b && b <= 0x39) || b
            == 0x2a || b == 0x2d || b == 0x2e || b == 0x5f {
            out.push(b as char);
        } else if b == 0x20 {
            out.push('+');
        } else {
            out.push('%');
            out.push(hex_upper_char(b / 16));
            out.push(hex_upper_char(b % 16));
        }
        assert(out@ =~= before + encode_byte(b));
        i = i + 1;
    }
    assert(bytes@.take(bytes@.len() as int) =~= bytes@);
    out
}

impl BrowserApp {
    /// Sets tab `tab_index` to open `address`.
    pub fn navigate_to_url(&mut self, tab_index: usize, address: String) -> (e: Effect)
        requires
            old(self).wf(),
            tab_index < old(self).tabs@.len(),
        ensures
            final(self).wf(),
            (final(self)@, e.view()) == navigate_to_url_spec(old(self)@, tab_index as int, address@),
    {
        let status = concat(concat("Loading ", address.as_str()).as_str(), "…");
        self.tabs[tab_index].address = address.clone();
        self.tabs[tab_index].is_new_tab_chooser = false;
        self.tabs[tab_index].status_message = status;
        let e = if self.tabs[tab_index].has_webview {
            Effect::LoadUrl { tab_index, url: address }
        } else {
            self.tabs[tab_index].pending_url = Some(address);
            Effect::Nothing
        };
        assert(self@ =~= navigate_to_url_spec(old(self)@, tab_index as int, address@).0);
        e
    }

    /// Sets tab `tab_index` to open what was typed into its address bar, or
    /// shows in its status line why that cannot be opened.
    pub fn navigate(&mut self, tab_index: usize, input: &str) -> (e: Effect)
        requires
            old(self).wf(),
            tab_index < old(self).tabs@.len(),
        ensures
            final(self).wf(),
            (final(self)@, e.view()) == navigate_spec(old(self)@, tab_index as int, input@),
    {
        match Self::normalize_address(input) {
            Ok(address) => self.navigate_to_url(tab_index, address),
            Err(error) => {
                self.set_status(tab_index, error);
                Effect::Nothing
            },
        }
    }

    /// Shows `message` in the status line of tab `tab_index`.
    pub fn set_status(&mut self, tab_index: usize, message: String)
        requires
            old(self).wf(),
            tab_index < old(self).tabs@.len(),
        ensures
            final(self).wf(),
            final(self)@ == old(self)@.with_status(tab_index as int, message@),
    {
        self.tabs[tab_index].status_message = message;
        assert(self@ =~= old(self)@.with_status(tab_index as int, message@));
    }

    /// Reports that the page view of tab `tab_index` could not open an address.
    pub fn load_failed(&mut self, tab_index: usize, error: &str)
        requires
            old(self).wf(),
            tab_index < old(self).tabs@.len(),
        ensures
            final(self).wf(),
            final(self)@ == old(self)@.with_status(
                tab_index as int,
                "Could not open address: "@ + error@,
            ),
    {
        self.set_status(tab_index, concat("Could not open address: ", error));
    }

    /// Reports how asking the shown tab's page view to go back went.
    pub fn go_back_in_history(&mut self, outcome: Result<(), String>)
        requires
            old(self).wf(),
        ensures
            final(self).wf(),
            final(self)@ == old(self)@.with_status(
                old(self).active_tab as int,
                match outcome {
                    Ok(()) => "Going back…"@,
                    Err(e) => "Could not go back: "@ + e@,
                },
            ),
    {
        let message = match outcome {
            Ok(()) => "Going back…".to_owned(),
            Err(error) => concat("Could not go back: ", error.as_str()),
        };
        let active = self.active_tab;
        self.set_status(active, message);
    }

    /// Reports how asking the shown tab's page view to go forward went.
    pub fn go_forward_in_history(&mut self, outcome: Result<(), String>)
        requires
            old(self).wf(),
        ensures
            final(self).wf(),
            final(self)@ == old(self)@.with_status(
                old(self).active_tab as int,
                match outcome {
                    Ok(()) => "Going forward…"@,
                    Err(e) => "Could not go forward: "@ + e@,
                },
            ),
    {
        let message = match outcome {
            Ok(()) => "Going forward…".to_owned(),
            Err(error) => concat("Could not go forward: ", error.as_str()),
        };
        let active = self.active_tab;
        self.set_status(active, message);
    }

    /// Reports how asking the shown tab's page view to reload went.
    pub fn reload_page(&mut self, outcome: Result<(), String>)
        requires
            old(self).wf(),
        ensures
            final(self).wf(),
            final(self)@ == old(self)@.with_status(
                old(self).active_tab as int,
                match outcome {
                    Ok(()) => "Reloading "@ + old(self)@.tabs[old(self).active_tab as int].address
                        + "…"@,
                    Err(e) => "Could not reload page: "@ + e@,
                },
            ),
    {
        let active = self.active_tab;
        let message = match outcome {
            Ok(()) => concat(
                concat("Reloading ", self.tabs[active].address.as_str()).as_str(),
                "…",
            ),
            Err(error) => concat("Could not reload page: ", error.as_str()),
        };
        self.set_status(active, message);
    }

    /// A search query written for a DuckDuckGo URL: each UTF-8 byte of the
    /// query as itself where it is a letter, a digit or one of `*-._`, a space
    /// as `+`, and any other byte as `%` and two upper-case hexadecimal digits.
    pub fn encode_search_query(query: &str) -> (encoded: String)
        ensures
            encoded@ == encode_query(encode_utf8(query@)),
    {
        let bytes = query.as_bytes();
        let out = encode_bytes(bytes);
        string_of(&out)
    }

    /// Whether the address bar opens `input` directly rather than searching for it.
    pub fn looks_like_url(input: &str) -> (r: bool)
        ensures
            r == looks_like_url(input@),
    {
        let chars = chars_of(input);
        looks_like_url_chars(&chars)
    }

    /// Whether `input` names this machine, which is reached over plain HTTP.
    pub fn is_loopback_address(input: &str) -> (r: bool)
        ensures
            r == is_loopback_address(input@),
    {
        let chars = chars_of(input);
        is_loopback_chars(&chars)
    }

    /// The address to open for what was typed into the address bar, or the
    /// message to show. Surrounding whitespace is dropped; an explicit
    /// `http://` or `https://` address is kept as typed, any other scheme is
    /// refused; a domain or IP address without a scheme gets `https://`, or
    /// `http://` where it names this machine; any other text becomes a
    /// DuckDuckGo search.
    pub fn normalize_address(address: &str) -> (r: Result<String, String>)
        ensures
            result_view(r) == normalized_address(address@),
    {
        let input = chars_of(address);
        let e = trim_chars(&input);
        if e.len() == 0 {
            return Err("Enter an HTTP or HTTPS address first.".to_owned());
        }
        let sep = [':', '/', '/'];
        assert(sep@ =~= scheme_separator());
        match find_chars(&e, &sep) {
            Some(i) => {
                proof {
                    crate::ip::lemma_find_bounds(e@, scheme_separator(), 0);
                }
                let scheme = sub_chars(&e, 0, i);
                assert(scheme@ =~= e@.take(i as int));
                let http = ['h', 't', 't', 'p'];
                let https = ['h', 't', 't', 'p', 's'];
                assert(http@ =~= http_word());
                assert(https@ =~= https_word());
                if chars_eq_ignore_ascii_case(&scheme, &http) || chars_eq_ignore_ascii_case(
                    &scheme,
                    &https,
                ) {
                    Ok(string_of(&e))
                } else {
                    Err("Only HTTP and HTTPS addresses are supported.".to_owned())
                }
            },
            None => {
                if looks_like_url_chars(&e) {
                    let mut out: Vec<char> = if is_loopback_chars(&e) {
                        vec!['h', 't', 't', 'p']
                    } else {
                        vec!['h', 't', 't', 'p', 's']
                    };
                    out.push(':');
                    out.push('/');
                    out.push('/');
                    let ghost prefix = out@;
                    let mut k: usize = 0;
                    while k < e.len()
                        invariant
                            k <= e@.len(),
                            out@ == prefix + e@.take(k as int),
                        decreases e.len() - k,
                    {
                        out.push(e[k]);
                        k = k + 1;
                        assert(out@ =~= prefix + e@.take(k as int));
                    }
                    assert(e@.take(e@.len() as int) =~= e@);
                    assert(out@ =~= (if is_loopback_address(e@) {
                        http_word()
                    } else {
                        https_word()
                    }) + scheme_separator() + e@);
                    Ok(string_of(&out))
                } else {
                    let query = string_of(&e);
                    let encoded = Self::encode_search_query(query.as_str());
                    let mut out = start_page_chars();
                    out.push('/');
                    out.push('?');
                    out.push('q');
                    out.push('=');
                    let ghost prefix = out@;
                    assert(prefix =~= search_prefix());
                    let enc = chars_of(encoded.as_str());
                    let mut k: usize = 0;
                    while k < enc.len()
                        invariant
                            k <= enc@.len(),
                            out@ == prefix + enc@.take(k as int),
                        decreases enc.len() - k,
                    {
                        out.push(enc[k]);
                        k = k + 1;
                        assert(out@ =~= prefix + enc@.take(k as int));
                    }
                    assert(enc@.take(enc@.len() as int) =~= enc@);
                    Ok(string_of(&out))
                }
            },
        }
    }
}

} // verus!
