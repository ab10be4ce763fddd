use termusic_core::collation::{collate, get_pin_yin};
use termusic_core::library::{
    clone_track, depth_allowed, filetype_supported, Catalog, CatalogError, DiskFile, ScanDepth,
    SearchCriteria, TrackDB,
};

fn track(file: &str, name: &str, artist: &str, album: &str, modified: u64) -> TrackDB {
    let directory = match file.rfind('/') {
        Some(i) => &file[..i],
        None => "",
    };
    TrackDB {
        file: file.to_string(),
        name: name.to_string(),
        directory: directory.to_string(),
        title: name.to_string(),
        artist: artist.to_string(),
        album: album.to_string(),
        genre: "rock".to_string(),
        duration: None,
        last_modified: modified,
        last_position: 0,
    }
}

fn catalog(rows: Vec<TrackDB>) -> Catalog {
    let mut c = Catalog::new();
    for row in rows {
        c.upsert(row);
    }
    c
}

fn disk(path: &str, depth: usize, is_file: bool, modified: Option<u64>) -> DiskFile {
    DiskFile { path: path.to_string(), depth, is_file, modified }
}

#[test]
fn criteria_names() {
    assert_eq!(SearchCriteria::Artist.as_str(), "artist");
    assert_eq!(SearchCriteria::Album.as_str(), "album");
    assert_eq!(SearchCriteria::Genre.as_str(), "genre");
    assert_eq!(SearchCriteria::Directory.as_str(), "directory");
    assert_eq!(SearchCriteria::Playlist.as_str(), "playlist");
    assert_eq!(SearchCriteria::Genre.to_string(), "genre");
}

#[test]
fn criteria_from_index() {
    assert_eq!(SearchCriteria::from(0usize), SearchCriteria::Artist);
    assert_eq!(SearchCriteria::from(1usize), SearchCriteria::Album);
    assert_eq!(SearchCriteria::from(2usize), SearchCriteria::Genre);
    assert_eq!(SearchCriteria::from(3usize), SearchCriteria::Directory);
    assert_eq!(SearchCriteria::from(4usize), SearchCriteria::Playlist);
    assert_eq!(SearchCriteria::from(5usize), SearchCriteria::Artist);
}

#[test]
fn pinyin_of_names() {
    assert_eq!(get_pin_yin("拼音"), "pinyin");
    assert_eq!(get_pin_yin("a拼b音c"), "apinbyinc");
    assert_eq!(get_pin_yin("Track 2"), "Track 2");
    assert_eq!(get_pin_yin(""), "");
}

#[test]
fn names_in_natural_order() {
    let keys: Vec<String> = ["Track 10", "Track 2", "Track 1", "Apple", "Track 2"]
        .iter()
        .map(|s| s.to_string())
        .collect();
    assert_eq!(collate(&keys), vec![3, 2, 1, 4, 0]);
    assert_eq!(collate(&vec![]), Vec::<usize>::new());
}

#[test]
fn one_row_for_each_path() {
    let mut c = catalog(vec![track("/m/a.mp3", "a", "x", "y", 1), track("/m/b.mp3", "b", "x", "y", 1)]);
    c.upsert(track("/m/a.mp3", "a2", "x", "y", 5));
    let rows = c.get_all_records();
    assert_eq!(rows.len(), 2);
    assert_eq!(rows[0], track("/m/a.mp3", "a2", "x", "y", 5));
    assert_eq!(rows[1], track("/m/b.mp3", "b", "x", "y", 1));
    c.delete("/m/a.mp3");
    c.delete("/m/none.mp3");
    assert_eq!(c.get_all_records(), vec![track("/m/b.mp3", "b", "x", "y", 1)]);
    assert_eq!(clone_track(&rows[0]), rows[0]);
}

#[test]
fn row_by_path() {
    let c = catalog(vec![track("/m/a.mp3", "a", "x", "y", 1)]);
    assert_eq!(c.get_record_by_path("/m/a.mp3"), Ok(track("/m/a.mp3", "a", "x", "y", 1)));
    assert_eq!(c.get_record_by_path("/m/b.mp3"), Err(CatalogError::NotFound));
    assert_eq!(CatalogError::NotFound.to_string(), "Query returned no rows");
    assert_eq!(CatalogError::NoSuchColumn.to_string(), "no such column");
}

#[test]
fn last_position_is_kept() {
    let mut c = catalog(vec![track("/m/a.mp3", "a", "x", "y", 1)]);
    assert_eq!(c.get_last_position("/m/a.mp3"), Ok(0));
    c.set_last_position("/m/a.mp3", 42);
    c.set_last_position("/m/b.mp3", 7);
    assert_eq!(c.get_last_position("/m/a.mp3"), Ok(42));
    assert_eq!(c.get_last_position("/m/b.mp3"), Err(CatalogError::NotFound));
    assert_eq!(c.get_all_records().len(), 1);
}

#[test]
fn tracks_by_criteria_in_order_of_names() {
    let c = catalog(vec![
        track("/m/1.mp3", "Track 10", "x", "one", 1),
        track("/m/2.mp3", "Track 2", "x", "one", 1),
        track("/m/3.mp3", "other", "y", "one", 1),
        track("/m/4.mp3", "音", "x", "two", 1),
        track("/n/5.mp3", "Track 1", "x", "two", 1),
    ]);
    let names = |rows: Vec<TrackDB>| rows.into_iter().map(|r| r.name).collect::<Vec<_>>();
    assert_eq!(
        names(c.get_record_by_criteria("x", &SearchCriteria::Artist).unwrap()),
        vec!["Track 1", "Track 2", "Track 10", "音"]
    );
    assert_eq!(
        names(c.get_record_by_criteria("two", &SearchCriteria::Album).unwrap()),
        vec!["Track 1", "音"]
    );
    assert_eq!(
        names(c.get_record_by_criteria("/n", &SearchCriteria::Directory).unwrap()),
        vec!["Track 1"]
    );
    assert_eq!(
        names(c.get_record_by_criteria("rock", &SearchCriteria::Genre).unwrap()).len(),
        5
    );
    assert_eq!(names(c.get_record_by_criteria("X", &SearchCriteria::Artist).unwrap()).len(), 0);
    assert_eq!(
        c.get_record_by_criteria("x", &SearchCriteria::Playlist),
        Err(CatalogError::NoSuchColumn)
    );
}

#[test]
fn distinct_values_without_duplicates_in_order() {
    let c = catalog(vec![
        track("/m/1.mp3", "a", "Band 10", "one", 1),
        track("/m/2.mp3", "b", "Band 2", "one", 1),
        track("/m/3.mp3", "c", "Band 10", "two", 1),
        track("/m/4.mp3", "d", "安", "two", 1),
        track("/m/5.mp3", "e", "Abba", "two", 1),
        track("/m/6.mp3", "f", "bob", "two", 1),
        track("/m/7.mp3", "g", "八", "two", 1),
    ]);
    assert_eq!(
        c.get_criterias(&SearchCriteria::Artist),
        Ok(vec![
            "Abba".to_string(),
            "Band 2".to_string(),
            "Band 10".to_string(),
            "安".to_string(),
            "八".to_string(),
            "bob".to_string(),
        ])
    );
    assert_eq!(
        c.get_criterias(&SearchCriteria::Album),
        Ok(vec!["one".to_string(), "two".to_string()])
    );
    assert_eq!(c.get_criterias(&SearchCriteria::Playlist), Err(CatalogError::NoSuchColumn));
    assert_eq!(Catalog::new().get_criterias(&SearchCriteria::Genre), Ok(vec![]));
}

#[test]
fn supported_file_types() {
    for ext in [
        "mkv", "mka", "mp3", "aiff", "aif", "aifc", "flac", "m4a", "aac", "opus", "ogg", "wav",
        "webm",
    ] {
        assert!(filetype_supported(&format!("/music/song.{ext}")), "{ext}");
    }
    assert!(filetype_supported("a.b.mp3"));
    assert!(filetype_supported("/dir.d/.x.flac"));
    assert!(!filetype_supported("/music/song.txt"));
    assert!(!filetype_supported("/music/song.MP3"));
    assert!(!filetype_supported("/music/mp3"));
    assert!(!filetype_supported("/music/.mp3"));
    assert!(!filetype_supported("/music.mp3/song"));
    assert!(!filetype_supported("/music/song."));
    assert!(!filetype_supported(""));
}

#[test]
fn scan_depth() {
    assert!(depth_allowed(100, ScanDepth::Unlimited));
    assert!(depth_allowed(0, ScanDepth::Limited(0)));
    assert!(depth_allowed(2, ScanDepth::Limited(2)));
    assert!(!depth_allowed(3, ScanDepth::Limited(2)));
}

#[test]
fn update_is_needed_for_new_and_newer_files() {
    let c = catalog(vec![track("/m/a.mp3", "a", "x", "y", 10)]);
    assert!(!c.need_update("/m/a.mp3", Some(10)));
    assert!(!c.need_update("/m/a.mp3", Some(9)));
    assert!(c.need_update("/m/a.mp3", Some(11)));
    assert!(c.need_update("/m/a.mp3", None));
    assert!(c.need_update("/m/b.mp3", Some(0)));
}

#[test]
fn scan_reads_what_is_new_and_drops_what_is_gone() {
    let mut c = catalog(vec![
        track("/m/old.mp3", "old", "x", "y", 10),
        track("/m/changed.mp3", "changed", "x", "y", 10),
        track("/m/gone.mp3", "gone", "x", "y", 10),
    ]);
    let files = vec![
        disk("/m", 0, false, Some(50)),
        disk("/m/old.mp3", 1, true, Some(10)),
        disk("/m/changed.mp3", 1, true, Some(20)),
        disk("/m/new.flac", 1, true, Some(5)),
        disk("/m/notes.txt", 1, true, Some(5)),
        disk("/m/deep/er/x.mp3", 3, true, Some(5)),
        disk("/m/unreadable.ogg", 1, true, None),
        disk("/m/dir.mp3", 1, false, Some(5)),
    ];
    assert_eq!(c.files_to_parse(&files, ScanDepth::Limited(2)), vec![2, 3, 6]);
    assert_eq!(c.files_to_parse(&files, ScanDepth::Unlimited), vec![2, 3, 5, 6]);
    let parsed = vec![
        track("/m/changed.mp3", "changed", "x2", "y", 20),
        track("/m/new.flac", "new", "x", "y", 5),
    ];
    c.apply_sync(parsed, &vec!["/m/gone.mp3".to_string(), "/m/never.mp3".to_string()]);
    assert_eq!(
        c.get_all_records(),
        vec![
            track("/m/old.mp3", "old", "x", "y", 10),
            track("/m/changed.mp3", "changed", "x2", "y", 20),
            track("/m/new.flac", "new", "x", "y", 5),
        ]
    );
    assert_eq!(c.files_to_parse(&files, ScanDepth::Limited(2)), vec![6]);
}

#[test]
fn playlist_entries_without_row_are_skipped() {
    let c = catalog(vec![track("/m/a.mp3", "a", "x", "y", 1), track("/m/b.mp3", "b", "x", "y", 1)]);
    let entries = vec![
        "/m/b.mp3".to_string(),
        "/m/missing.mp3".to_string(),
        "/m/a.mp3".to_string(),
        "/m/b.mp3".to_string(),
    ];
    let names: Vec<String> = c.tracks_of_playlist(&entries).into_iter().map(|r| r.name).collect();
    assert_eq!(names, vec!["b", "a", "b"]);
}
