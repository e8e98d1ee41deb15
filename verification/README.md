# Dark Horse

The rules of the Dark Horse browser, verified with Verus: what the address bar
makes of its text, how tabs open and close, and how local bookmarks are saved,
edited and deleted.

- `src/` is the library. `browser_app` holds the browser's state and the
  operations the window asks for; `browser_app/navigation.rs` reads addresses
  (explicit HTTP(S) URLs, bare domains, `localhost` and IP addresses, or a
  DuckDuckGo search); `ip.rs` reads ports and IPv4/IPv6 addresses;
  `text.rs` has the character operations they use; `user_data.rs` holds the
  bookmarks; `laws.rs` proves properties across operations.
- `app/` is the window: egui controls, one Wry web view per tab, and reading
  and writing the bookmarks file. It hands every user action and page event to
  the library and carries out the work the library hands back.
- `tests/` runs the library on concrete inputs.
