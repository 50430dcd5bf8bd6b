use video_organizer::catalogue::{is_metadata_file, ScannedFile, VideoCatalogue};
use video_organizer::date::EntryDate;
use video_organizer::error::OrganizerError;
use video_organizer::ordering::sort_by_date;
use video_organizer::record::{CatalogueEntry, InfoJson, SourceFile, VideoJson};
use video_organizer::seasons::SeasonedStructure;

fn source(name: &str) -> SourceFile {
    SourceFile { path: format!("/archive/{}", name), file_name: name.to_string(), is_file: true }
}

fn record(id: &str, channel: &str, upload_date: &str) -> VideoJson {
    VideoJson {
        id: id.to_string(),
        title: format!("title {}", id),
        channel: channel.to_string(),
        fulltitle: format!("full title {}", id),
        upload_date: upload_date.to_string(),
        timestamp: None,
        playlist_webpage_url: None,
    }
}

fn scanned(id: &str, channel: &str, upload_date: &str) -> ScannedFile {
    let name = format!("{}.info.json", id);
    ScannedFile {
        file: source(&name),
        info: InfoJson::Video(record(id, channel, upload_date)),
        listing: vec![source(&name), source(&format!("{}.mp4", id))],
    }
}

fn entry(id: &str, channel: &str, year: i32, month: u32, day: u32, second: u32) -> CatalogueEntry {
    CatalogueEntry {
        date: EntryDate { year, month, day, second },
        json: record(id, channel, "20000101"),
        path: vec![source(&format!("{}.info.json", id))],
    }
}

fn ids(videos: &Vec<&CatalogueEntry>) -> Vec<String> {
    videos.iter().map(|e| e.json.id.clone()).collect()
}

fn find<'a, 'b>(channels: &'b Vec<SeasonedStructure<'a>>, name: &str) -> &'b SeasonedStructure<'a> {
    channels.iter().find(|c| c.channel_name == name).unwrap()
}

#[test]
fn metadata_files_are_known_by_their_extension() {
    assert!(is_metadata_file("clip.info.json"));
    assert!(is_metadata_file("clip.json"));
    assert!(!is_metadata_file("clip.mp4"));
    assert!(!is_metadata_file("json"));
    assert!(!is_metadata_file(".json"));
    assert!(!is_metadata_file("clip.JSON"));
    assert!(!is_metadata_file("clip.json.bak"));
}

#[test]
fn build_keeps_the_videos_in_the_order_of_the_scan() {
    let files = vec![
        scanned("b", "one", "20200105"),
        scanned("a", "two", "20190101"),
        scanned("c", "one", "20180101"),
    ];
    let cat = VideoCatalogue::build(files).unwrap();
    let got: Vec<String> = cat.entries().iter().map(|e| e.json.id.clone()).collect();
    assert_eq!(got, vec!["b", "a", "c"]);
    assert_eq!(cat.entries()[0].date, EntryDate { year: 2020, month: 1, day: 5, second: 0 });
    assert_eq!(
        cat.entries()[0].path,
        vec![source("b.info.json"), source("b.mp4")]
    );
}

#[test]
fn build_leaves_out_playlists_shorts_and_other_files() {
    let mut short = scanned("s", "one", "20200101");
    if let InfoJson::Video(v) = &mut short.info {
        v.playlist_webpage_url = Some("https://example.org/@one/shorts".to_string());
    }
    let playlist = ScannedFile {
        file: source("list.info.json"),
        info: InfoJson::Playlist,
        listing: vec![],
    };
    let mut not_metadata = scanned("n", "one", "20200101");
    not_metadata.file = source("n.mp4");
    let files = vec![short, scanned("a", "one", "20200101"), playlist, not_metadata];
    let cat = VideoCatalogue::build(files).unwrap();
    let got: Vec<String> = cat.entries().iter().map(|e| e.json.id.clone()).collect();
    assert_eq!(got, vec!["a"]);
}

#[test]
fn a_short_never_appears_in_the_catalogue() {
    let mut files = Vec::new();
    for (i, date) in ["20200101", "garbage", "20210101"].iter().enumerate() {
        let mut f = scanned(&format!("s{}", i), "one", date);
        if let InfoJson::Video(v) = &mut f.info {
            v.playlist_webpage_url = Some("https://example.org/watch/shorts".to_string());
            v.timestamp = if i == 2 { Some(i64::MAX) } else { None };
        }
        files.push(f);
    }
    let cat = VideoCatalogue::build(files).unwrap();
    assert!(cat.entries().is_empty());
    assert!(cat.build_seasons().is_empty());
}

#[test]
fn build_stops_at_the_first_video_without_date() {
    let mut out_of_range = scanned("c", "one", "20200101");
    if let InfoJson::Video(v) = &mut out_of_range.info {
        v.timestamp = Some(i64::MAX);
    }
    let files = vec![
        scanned("a", "one", "20200101"),
        scanned("b", "one", "2020"),
        out_of_range,
    ];
    match VideoCatalogue::build(files) {
        Err(e) => assert_eq!(e, OrganizerError::WrongUploadDate("2020".to_string())),
        Ok(_) => panic!("the scan went through"),
    }
}

#[test]
fn a_file_that_is_no_metadata_file_cannot_stop_the_scan() {
    let mut other = scanned("b", "one", "garbage");
    other.file = source("b.txt");
    let cat = VideoCatalogue::build(vec![scanned("a", "one", "20200101"), other]).unwrap();
    assert_eq!(cat.entries().len(), 1);
}

#[test]
fn an_empty_scan_gives_an_empty_catalogue() {
    let cat = VideoCatalogue::build(vec![]).unwrap();
    assert!(cat.entries().is_empty());
    assert!(cat.build_seasons().is_empty());
}

#[test]
fn seasons_are_numbered_by_rank_of_the_year() {
    let files = vec![
        scanned("a", "one", "20190601"),
        scanned("b", "one", "20210101"),
        scanned("c", "one", "20191231"),
        scanned("d", "one", "20211231"),
    ];
    let cat = VideoCatalogue::build(files).unwrap();
    let channels = cat.build_seasons();
    assert_eq!(channels.len(), 1);
    let seasons = &channels[0].seasons;
    assert_eq!(seasons.len(), 2);
    assert_eq!(seasons[0].number, 1);
    assert_eq!(seasons[1].number, 2);
    assert_eq!(ids(&seasons[0].videos), vec!["a", "c"]);
    assert_eq!(ids(&seasons[1].videos), vec!["b", "d"]);
}

#[test]
fn every_video_belongs_to_exactly_one_channel() {
    let files = vec![
        scanned("a", "one", "20200101"),
        scanned("b", "two", "20200102"),
        scanned("c", "one", "20200103"),
        scanned("d", "three", "20200104"),
        scanned("e", "two", "20200105"),
        scanned("f", "one", "20210101"),
    ];
    let cat = VideoCatalogue::build(files).unwrap();
    let channels = cat.build_seasons();
    let mut names: Vec<String> = channels.iter().map(|c| c.channel_name.clone()).collect();
    names.sort();
    assert_eq!(names, vec!["one", "three", "two"]);
    let mut all: Vec<String> = Vec::new();
    for c in &channels {
        for s in &c.seasons {
            for v in &s.videos {
                assert_eq!(v.json.channel, c.channel_name);
                all.push(v.json.id.clone());
            }
        }
    }
    all.sort();
    assert_eq!(all, vec!["a", "b", "c", "d", "e", "f"]);
    let one = find(&channels, "one");
    assert_eq!(one.seasons.len(), 2);
    assert_eq!(ids(&one.seasons[0].videos), vec!["a", "c"]);
    assert_eq!(ids(&one.seasons[1].videos), vec!["f"]);
    assert_eq!(ids(&find(&channels, "two").seasons[0].videos), vec!["b", "e"]);
    assert_eq!(ids(&find(&channels, "three").seasons[0].videos), vec!["d"]);
}

#[test]
fn channels_are_told_apart_by_their_exact_name() {
    let files = vec![
        scanned("a", "One", "20200101"),
        scanned("b", "one", "20200102"),
        scanned("c", "one ", "20200103"),
    ];
    let cat = VideoCatalogue::build(files).unwrap();
    assert_eq!(cat.build_seasons().len(), 3);
}

#[test]
fn videos_of_equal_date_keep_the_order_of_the_scan() {
    let files = vec![
        scanned("x", "one", "20200301"),
        scanned("b", "one", "20200201"),
        scanned("a", "one", "20200201"),
        scanned("c", "one", "20200201"),
        scanned("w", "one", "20200101"),
    ];
    let cat = VideoCatalogue::build(files).unwrap();
    let channels = cat.build_seasons();
    assert_eq!(ids(&channels[0].seasons[0].videos), vec!["w", "b", "a", "c", "x"]);
}

#[test]
fn sort_by_date_orders_and_is_stable() {
    let entries = vec![
        entry("e", "c", 2021, 1, 1, 0),
        entry("b", "c", 2020, 6, 1, 10),
        entry("a", "c", 2020, 6, 1, 10),
        entry("d", "c", 2020, 6, 1, 11),
        entry("f", "c", 2019, 12, 31, 86399),
        entry("c", "c", 2020, 6, 1, 10),
    ];
    let refs: Vec<&CatalogueEntry> = entries.iter().collect();
    let sorted = sort_by_date(&refs);
    assert_eq!(ids(&sorted), vec!["f", "b", "a", "c", "d", "e"]);
    assert_eq!(ids(&sort_by_date(&Vec::new())), Vec::<String>::new());
}

#[test]
fn build_channel_splits_where_the_year_changes() {
    let entries = vec![
        entry("d", "c", 2022, 1, 1, 0),
        entry("a", "c", 2018, 12, 31, 86399),
        entry("c", "c", 2019, 7, 1, 0),
        entry("b", "c", 2019, 1, 1, 0),
    ];
    let refs: Vec<&CatalogueEntry> = entries.iter().collect();
    let chan = VideoCatalogue::build_channel("the channel", refs);
    assert_eq!(chan.channel_name, "the channel");
    let numbers: Vec<usize> = chan.seasons.iter().map(|s| s.number).collect();
    assert_eq!(numbers, vec![1, 2, 3]);
    assert_eq!(ids(&chan.seasons[0].videos), vec!["a"]);
    assert_eq!(ids(&chan.seasons[1].videos), vec!["b", "c"]);
    assert_eq!(ids(&chan.seasons[2].videos), vec!["d"]);
}

#[test]
fn build_channel_keeps_every_video_once_in_ascending_order() {
    let entries = vec![
        entry("a", "c", 2020, 3, 1, 0),
        entry("b", "c", 2019, 3, 1, 0),
        entry("c", "c", 2020, 1, 1, 0),
        entry("d", "c", 2021, 1, 1, 5),
        entry("e", "c", 2019, 3, 1, 0),
        entry("f", "c", 2021, 1, 1, 4),
    ];
    let refs: Vec<&CatalogueEntry> = entries.iter().collect();
    let chan = VideoCatalogue::build_channel("c", refs);
    let mut all: Vec<String> = Vec::new();
    let mut last_number = 0;
    for s in &chan.seasons {
        assert!(s.number > last_number);
        last_number = s.number;
        assert!(!s.videos.is_empty());
        for pair in s.videos.windows(2) {
            assert!(!pair[1].date.before(&pair[0].date));
            assert_eq!(pair[0].date.year, pair[1].date.year);
        }
        all.extend(ids(&s.videos));
    }
    assert_eq!(all, vec!["b", "e", "c", "a", "f", "d"]);
}

#[test]
fn build_channel_of_nothing_has_no_season() {
    let chan = VideoCatalogue::build_channel("empty", Vec::new());
    assert_eq!(chan.channel_name, "empty");
    assert!(chan.seasons.is_empty());
}

#[test]
fn sort_by_date_agrees_with_a_stable_sort_by_key() {
    let mut state: u64 = 12345;
    let mut entries = Vec::new();
    for i in 0..200 {
        state = state.wrapping_mul(6364136223846793005).wrapping_add(1442695040888963407);
        let r = state >> 33;
        entries.push(entry(
            &format!("v{}", i),
            "c",
            2018 + (r % 3) as i32,
            1 + (r / 3 % 2) as u32,
            1 + (r / 6 % 2) as u32,
            (r / 12 % 2) as u32,
        ));
    }
    let refs: Vec<&CatalogueEntry> = entries.iter().collect();
    let mut expected = refs.clone();
    expected.sort_by_key(|e| (e.date.year, e.date.month, e.date.day, e.date.second));
    assert_eq!(ids(&sort_by_date(&refs)), ids(&expected));
}

#[test]
fn a_reversed_channel_is_put_in_order() {
    let mut entries = Vec::new();
    for i in 0..50 {
        entries.push(entry(&format!("v{}", i), "c", 2030 - (i / 10), 12 - (i % 10) as u32, 1, 0));
    }
    let refs: Vec<&CatalogueEntry> = entries.iter().collect();
    let chan = VideoCatalogue::build_channel("c", refs);
    assert_eq!(chan.seasons.len(), 5);
    for (k, s) in chan.seasons.iter().enumerate() {
        assert_eq!(s.number, k + 1);
        assert_eq!(s.videos.len(), 10);
        for v in &s.videos {
            assert_eq!(v.date.year, 2026 + k as i32);
        }
        for pair in s.videos.windows(2) {
            assert!(pair[0].date.before(&pair[1].date));
        }
    }
}

#[test]
fn seasons_of_groups_keeps_the_order_of_the_groups() {
    let a = entry("a", "x", 2020, 1, 1, 0);
    let b = entry("b", "y", 2019, 1, 1, 0);
    let c = entry("c", "y", 2018, 1, 1, 0);
    let groups = vec![
        ("y".to_string(), vec![&b, &c]),
        ("x".to_string(), vec![&a]),
        ("z".to_string(), vec![]),
    ];
    let channels = VideoCatalogue::seasons_of_groups(groups);
    let names: Vec<&str> = channels.iter().map(|c| c.channel_name.as_str()).collect();
    assert_eq!(names, vec!["y", "x", "z"]);
    assert_eq!(channels[0].seasons.len(), 2);
    assert_eq!(ids(&channels[0].seasons[0].videos), vec!["c"]);
    assert_eq!(ids(&channels[0].seasons[1].videos), vec!["b"]);
    assert_eq!(ids(&channels[1].seasons[0].videos), vec!["a"]);
    assert!(channels[2].seasons.is_empty());
}
