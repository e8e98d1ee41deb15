use dark_horse::user_data::{Bookmark, SaveFailure, StoredUserData, UserData};

#[test]
fn missing_file_means_no_bookmarks_and_no_message() {
    let (data, message) = UserData::from_stored(StoredUserData::Missing);
    assert!(data.bookmarks.is_empty());
    assert!(message.is_none());
}

#[test]
fn unreadable_data_is_reported() {
    let (data, message) = UserData::from_stored(StoredUserData::NoDataFolder);
    assert!(data.bookmarks.is_empty());
    assert_eq!(message.as_deref(), Some("Could not find the local application-data folder."));
    let (_, message) = UserData::from_stored(StoredUserData::Unreadable("denied".to_owned()));
    assert_eq!(message.as_deref(), Some("Could not read local browser settings: denied"));
    let (_, message) = UserData::from_stored(StoredUserData::Malformed("bad json".to_owned()));
    assert_eq!(message.as_deref(), Some("Could not parse local browser settings: bad json"));
}

#[test]
fn read_data_is_kept() {
    let data = UserData {
        bookmarks: vec![Bookmark { title: "t".to_owned(), url: "https://u.v".to_owned() }],
    };
    let (data, message) = UserData::from_stored(StoredUserData::Read(data));
    assert!(message.is_none());
    assert_eq!(data.bookmarks.len(), 1);
    assert_eq!(data.bookmarks[0].title, "t");
    assert_eq!(data.bookmarks[0].url, "https://u.v");
}

#[test]
fn save_failures_have_messages() {
    assert_eq!(
        UserData::save_failure_message(SaveFailure::NoDataFolder),
        "Could not find the local application-data folder."
    );
    assert_eq!(
        UserData::save_failure_message(SaveFailure::NoSettingsFolder),
        "Could not find the local settings folder."
    );
    assert_eq!(
        UserData::save_failure_message(SaveFailure::CreateFolder("e".to_owned())),
        "Could not create the local settings folder: e"
    );
    assert_eq!(
        UserData::save_failure_message(SaveFailure::Encode("e".to_owned())),
        "Could not encode local browser settings: e"
    );
    assert_eq!(
        UserData::save_failure_message(SaveFailure::Write("e".to_owned())),
        "Could not save local browser settings: e"
    );
}

#[test]
fn default_user_data_is_empty() {
    assert!(UserData::default().bookmarks.is_empty());
}
