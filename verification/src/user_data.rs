//! Locally saved bookmarks, the one piece of browsing data the browser keeps.
use vstd::prelude::*;

use crate::text::concat;

verus! {

/// A saved bookmark: a display name and the address it opens.
pub struct Bookmark {
    pub title: String,
    pub url: String,
}

/// Everything the browser keeps on this device between runs.
pub struct UserData {
    pub bookmarks: Vec<Bookmark>,
}

impl Bookmark {
    /// The bookmark as a pair of (name, address).
    pub open spec fn view(&self) -> (Seq<char>, Seq<char>) {
        (self.title@, self.url@)
    }
}

impl UserData {
    /// The saved bookmarks, in order, each as (name, address).
    pub open spec fn view(&self) -> Seq<(Seq<char>, Seq<char>)> {
        Seq::new(self.bookmarks@.len(), |i: int| self.bookmarks@[i].view())
    }
}

/// What looking for the saved bookmarks on disk came to.
pub enum StoredUserData {
    /// The system has no application-data folder for the browser.
    NoDataFolder,
    /// Nothing has been saved yet.
    Missing,
    /// The file could not be read, for the reason given.
    Unreadable(String),
    /// The file could not be parsed, for the reason given.
    Malformed(String),
    Read(UserData),
}

/// Why writing the bookmarks to disk failed.
pub enum SaveFailure {
    NoDataFolder,
    NoSettingsFolder,
    CreateFolder(String),
    Encode(String),
    Write(String),
}

pub open spec fn no_data_folder_message() -> Seq<char> {
    "Could not find the local application-data folder."@
}

/// The bookmarks the browser starts with, and the message to show about them:
/// a missing file means no bookmarks and no message; any other failure means
/// no bookmarks and a message that says what went wrong.
pub open spec fn stored_spec(stored: StoredUserData) -> (Seq<(Seq<char>, Seq<char>)>, Option<Seq<char>>) {
    match stored {
        StoredUserData::NoDataFolder => (Seq::empty(), Some(no_data_folder_message())),
        StoredUserData::Missing => (Seq::empty(), None),
        StoredUserData::Unreadable(e) => (
            Seq::empty(),
            Some("Could not read local browser settings: "@ + e@),
        ),
        StoredUserData::Malformed(e) => (
            Seq::empty(),
            Some("Could not parse local browser settings: "@ + e@),
        ),
        StoredUserData::Read(d) => (d.view(), None),
    }
}

/// The message for a failed save.
pub open spec fn save_failure_spec(f: SaveFailure) -> Seq<char> {
    match f {
        SaveFailure::NoDataFolder => no_data_folder_message(),
        SaveFailure::NoSettingsFolder => "Could not find the local settings folder."@,
        SaveFailure::CreateFolder(e) => "Could not create the local settings folder: "@ + e@,
        SaveFailure::Encode(e) => "Could not encode local browser settings: "@ + e@,
        SaveFailure::Write(e) => "Could not save local browser settings: "@ + e@,
    }
}

impl UserData {
    /// The bookmarks to start with, and the message to show about them.
    pub fn from_stored(stored: StoredUserData) -> (r: (UserData, Option<String>))
        ensures
            (r.0.view(), match r.1 {
                Some(m) => Some(m@),
                None => None,
            }) == stored_spec(stored),
    {
        let empty = UserData { bookmarks: Vec::new() };
        proof {
            assert(empty.view() =~= Seq::<(Seq<char>, Seq<char>)>::empty());
        }
        match stored {
            StoredUserData::NoDataFolder => (
                empty,
                Some("Could not find the local application-data folder.".to_owned()),
            ),
            StoredUserData::Missing => (empty, None),
            StoredUserData::Unreadable(e) => (
                empty,
                Some(concat("Could not read local browser settings: ", e.as_str())),
            ),
            StoredUserData::Malformed(e) => (
                empty,
                Some(concat("Could not parse local browser settings: ", e.as_str())),
            ),
            StoredUserData::Read(d) => (d, None),
        }
    }

    /// The message to show for a failed save.
    pub fn save_failure_message(failure: SaveFailure) -> (m: String)
        ensures
            m@ == save_failure_spec(failure),
    {
        match failure {
            SaveFailure::NoDataFolder => "Could not find the local application-data folder.".to_owned(),
            SaveFailure::NoSettingsFolder => "Could not find the local settings folder.".to_owned(),
            SaveFailure::CreateFolder(e) => concat(
                "Could not create the local settings folder: ",
                e.as_str(),
            ),
            SaveFailure::Encode(e) => concat("Could not encode local browser settings: ", e.as_str()),
            SaveFailure::Write(e) => concat("Could not save local browser settings: ", e.as_str()),
        }
    }
}

impl Default for UserData {
    fn default() -> (r: UserData)
        ensures
            r.view() == Seq::<(Seq<char>, Seq<char>)>::empty(),
    {
        let r = UserData { bookmarks: Vec::new() };
        assert(r.view() =~= Seq::<(Seq<char>, Seq<char>)>::empty());
        r
    }
}

} // verus!
