//! The browser's own rules: reading what is typed into the address bar,
//! keeping tabs, and keeping local bookmarks.
pub mod browser_app;
pub mod ip;
pub mod laws;
pub mod text;
pub mod user_data;
