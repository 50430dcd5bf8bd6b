use video_organizer::date::EntryDate;
use video_organizer::error::OrganizerError;
use video_organizer::record::{CatalogueEntry, InfoJson, SourceFile, VideoJson};

fn video(title: &str, fulltitle: &str, channel: &str) -> VideoJson {
    VideoJson {
        id: "id".to_string(),
        title: title.to_string(),
        channel: channel.to_string(),
        fulltitle: fulltitle.to_string(),
        upload_date: "20200101".to_string(),
        timestamp: None,
        playlist_webpage_url: None,
    }
}

fn file(dir: &str, name: &str) -> SourceFile {
    SourceFile { path: format!("{}/{}", dir, name), file_name: name.to_string(), is_file: true }
}

fn directory(dir: &str, name: &str) -> SourceFile {
    SourceFile { path: format!("{}/{}", dir, name), file_name: name.to_string(), is_file: false }
}

#[test]
fn timestamp_zero_is_the_unix_epoch() {
    let mut v = video("t", "tt", "c");
    v.timestamp = Some(0);
    assert_eq!(v.get_date(), Ok(EntryDate { year: 1970, month: 1, day: 1, second: 0 }));
}

#[test]
fn upload_date_resolves_to_midnight() {
    let v = video("t", "tt", "c");
    assert_eq!(v.get_date(), Ok(EntryDate { year: 2020, month: 1, day: 1, second: 0 }));
}

#[test]
fn timestamp_resolves_to_the_second() {
    let mut v = video("t", "tt", "c");
    v.timestamp = Some(1431684307);
    assert_eq!(v.get_date(), Ok(EntryDate { year: 2015, month: 5, day: 15, second: 36307 }));
}

#[test]
fn timestamp_before_the_epoch() {
    let mut v = video("t", "tt", "c");
    v.timestamp = Some(-1);
    assert_eq!(v.get_date(), Ok(EntryDate { year: 1969, month: 12, day: 31, second: 86399 }));
}

#[test]
fn timestamp_takes_precedence_over_upload_date() {
    let mut v = video("t", "tt", "c");
    v.upload_date = "20200101".to_string();
    v.timestamp = Some(1609459200);
    assert_eq!(v.get_date(), Ok(EntryDate { year: 2021, month: 1, day: 1, second: 0 }));
    v.upload_date = "not a date".to_string();
    assert_eq!(v.get_date(), Ok(EntryDate { year: 2021, month: 1, day: 1, second: 0 }));
}

#[test]
fn consistent_timestamp_and_upload_date_agree() {
    let mut with_timestamp = video("t", "tt", "c");
    with_timestamp.timestamp = Some(1577836800);
    let without = video("t", "tt", "c");
    assert_eq!(with_timestamp.get_date(), without.get_date());
}

#[test]
fn wrong_upload_date_is_an_error() {
    let mut v = video("t", "tt", "c");
    v.upload_date = "2020-01-01".to_string();
    assert_eq!(v.get_date(), Err(OrganizerError::WrongUploadDate("2020-01-01".to_string())));
    v.upload_date = "20201301".to_string();
    assert_eq!(v.get_date(), Err(OrganizerError::WrongUploadDate("20201301".to_string())));
    v.upload_date = "20210229".to_string();
    assert_eq!(v.get_date(), Err(OrganizerError::WrongUploadDate("20210229".to_string())));
    v.upload_date = String::new();
    assert_eq!(v.get_date(), Err(OrganizerError::WrongUploadDate(String::new())));
}

#[test]
fn leap_day_is_a_date() {
    let mut v = video("t", "tt", "c");
    v.upload_date = "20200229".to_string();
    assert_eq!(v.get_date(), Ok(EntryDate { year: 2020, month: 2, day: 29, second: 0 }));
}

#[test]
fn timestamp_out_of_range_is_an_error() {
    let mut v = video("t", "tt", "c");
    v.timestamp = Some(i64::MAX);
    assert_eq!(v.get_date(), Err(OrganizerError::TimestampOutOfRange(i64::MAX)));
    v.timestamp = Some(i64::MIN);
    assert_eq!(v.get_date(), Err(OrganizerError::TimestampOutOfRange(i64::MIN)));
}

#[test]
fn date_from_timestamp_fields() {
    assert_eq!(
        EntryDate::from_timestamp_fields(86400, Some((1970, 1, 2, 0))),
        Ok(EntryDate { year: 1970, month: 1, day: 2, second: 0 })
    );
    assert_eq!(
        EntryDate::from_timestamp_fields(5, None),
        Err(OrganizerError::TimestampOutOfRange(5))
    );
    assert_eq!(
        EntryDate::midnight((1999, 12, 31)),
        EntryDate { year: 1999, month: 12, day: 31, second: 0 }
    );
}

#[test]
fn dates_are_ordered_by_year_month_day_second() {
    let a = EntryDate { year: 2020, month: 5, day: 10, second: 100 };
    assert!(a.before(&EntryDate { year: 2021, month: 1, day: 1, second: 0 }));
    assert!(a.before(&EntryDate { year: 2020, month: 6, day: 1, second: 0 }));
    assert!(a.before(&EntryDate { year: 2020, month: 5, day: 11, second: 0 }));
    assert!(a.before(&EntryDate { year: 2020, month: 5, day: 10, second: 101 }));
    assert!(!a.before(&a));
    assert!(!a.before(&EntryDate { year: 2019, month: 12, day: 31, second: 86399 }));
    assert!(!a.before(&EntryDate { year: 2020, month: 4, day: 30, second: 86399 }));
    assert!(!a.before(&EntryDate { year: 2020, month: 5, day: 9, second: 86399 }));
    assert!(!a.before(&EntryDate { year: 2020, month: 5, day: 10, second: 99 }));
}

#[test]
fn shorts_are_recognised_by_the_end_of_the_address() {
    let mut v = video("t", "tt", "c");
    assert!(!v.is_short());
    v.playlist_webpage_url = Some("https://www.example.com/@chan/shorts".to_string());
    assert!(v.is_short());
    v.playlist_webpage_url = Some("https://www.example.com/@chan/videos".to_string());
    assert!(!v.is_short());
    v.playlist_webpage_url = Some("https://www.example.com/@chan/shorts/".to_string());
    assert!(!v.is_short());
    v.playlist_webpage_url = Some("/shorts".to_string());
    assert!(v.is_short());
    v.playlist_webpage_url = Some(String::new());
    assert!(!v.is_short());
}

#[test]
fn title_prefers_a_full_title_of_more_than_one_character() {
    let entry = |title: &str, fulltitle: &str| CatalogueEntry {
        date: EntryDate { year: 2020, month: 1, day: 1, second: 0 },
        json: video(title, fulltitle, "c"),
        path: vec![],
    };
    assert_eq!(entry("short", "the full title").get_title(), "the full title");
    assert_eq!(entry("short", "ab").get_title(), "ab");
    assert_eq!(entry("short", "a").get_title(), "short");
    assert_eq!(entry("short", "").get_title(), "short");
    assert_eq!(entry("short", "\u{e9}").get_title(), "short");
    assert_eq!(entry("short", "\u{e9}\u{e9}").get_title(), "\u{e9}\u{e9}");
}

#[test]
fn entry_date_is_the_stored_date() {
    let d = EntryDate { year: 2001, month: 2, day: 3, second: 4 };
    let entry = CatalogueEntry { date: d, json: video("t", "tt", "c"), path: vec![] };
    assert_eq!(entry.get_date(), d);
}

#[test]
fn playlists_give_no_entry() {
    let meta = file("/src", "list.info.json");
    assert_eq!(CatalogueEntry::new(&meta, InfoJson::Playlist, &vec![]), Ok(None));
}

#[test]
fn shorts_give_no_entry_whatever_else_they_hold() {
    let meta = file("/src", "clip.info.json");
    let mut v = video("t", "tt", "c");
    v.playlist_webpage_url = Some("https://www.example.com/@chan/shorts".to_string());
    assert_eq!(CatalogueEntry::new(&meta, InfoJson::Video(v.clone()), &vec![]), Ok(None));
    v.upload_date = "garbage".to_string();
    assert_eq!(CatalogueEntry::new(&meta, InfoJson::Video(v.clone()), &vec![]), Ok(None));
    v.timestamp = Some(i64::MAX);
    assert_eq!(CatalogueEntry::new(&meta, InfoJson::Video(v), &vec![]), Ok(None));
}

#[test]
fn a_video_without_date_is_an_error() {
    let meta = file("/src", "clip.info.json");
    let mut v = video("t", "tt", "c");
    v.upload_date = "yesterday".to_string();
    assert_eq!(
        CatalogueEntry::new(&meta, InfoJson::Video(v), &vec![]),
        Err(OrganizerError::WrongUploadDate("yesterday".to_string()))
    );
}

#[test]
fn a_video_gives_an_entry_with_its_files() {
    let meta = file("/src", "clip.info.json");
    let listing = vec![
        file("/src", "clip.webp"),
        file("/src", "other.mp4"),
        file("/src", "clip.info.json"),
        directory("/src", "clip.d"),
        file("/src", "clip.mp4"),
        file("/src", "clip.en.vtt"),
        file("/src", "clip"),
    ];
    let v = video("t", "tt", "c");
    let entry = CatalogueEntry::new(&meta, InfoJson::Video(v.clone()), &listing).unwrap().unwrap();
    assert_eq!(entry.date, EntryDate { year: 2020, month: 1, day: 1, second: 0 });
    assert_eq!(entry.json, v);
    assert_eq!(
        entry.path,
        vec![
            file("/src", "clip.info.json"),
            file("/src", "clip.webp"),
            file("/src", "clip.mp4"),
            file("/src", "clip"),
        ]
    );
}

#[test]
fn the_metadata_file_comes_first_whatever_the_order_of_the_listing() {
    let meta = file("/src", "b.info.json");
    let listing = vec![file("/src", "b.a"), file("/src", "b.info.json"), file("/src", "b.z")];
    let files = CatalogueEntry::get_other_files(&meta, &listing);
    assert_eq!(files, vec![file("/src", "b.info.json"), file("/src", "b.a"), file("/src", "b.z")]);
}

#[test]
fn a_metadata_file_without_the_double_suffix_stands_alone() {
    let meta = file("/src", "clip.json");
    let listing = vec![file("/src", "clip.mp4"), file("/src", "clip.json")];
    let files = CatalogueEntry::get_other_files(&meta, &listing);
    assert_eq!(files, vec![file("/src", "clip.json")]);
}

#[test]
fn a_video_always_has_a_file() {
    let meta = file("/src", "clip.info.json");
    let files = CatalogueEntry::get_other_files(&meta, &vec![]);
    assert_eq!(files, vec![file("/src", "clip.info.json")]);
}

#[test]
fn clock_splits_the_seconds_of_the_day() {
    let at = |second: u32| EntryDate { year: 2020, month: 1, day: 1, second }.clock();
    assert_eq!(at(0), (0, 0, 0));
    assert_eq!(at(59), (0, 0, 59));
    assert_eq!(at(3600), (1, 0, 0));
    assert_eq!(at(36307), (10, 5, 7));
    assert_eq!(at(86399), (23, 59, 59));
}

#[test]
fn date_from_upload_day() {
    assert_eq!(
        EntryDate::from_upload_day("20200101", Some((2020, 1, 1))),
        Ok(EntryDate { year: 2020, month: 1, day: 1, second: 0 })
    );
    assert_eq!(
        EntryDate::from_upload_day("soon", None),
        Err(OrganizerError::WrongUploadDate("soon".to_string()))
    );
}
