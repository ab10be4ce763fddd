use termusic_core::library::{Catalog, SearchCriteria, TrackDB};
use termusic_core::model::{display_name, DBCriteria, ListRow, Matchable, Model, ModelError};
use termusic_core::podcast::{Episode, Podcast, PodcastFeed};

fn episode(id: i64, pod_id: i64, url: &str, path: Option<&str>, played: bool) -> Episode {
    Episode {
        id,
        pod_id,
        title: format!("ep{id}"),
        url: url.to_string(),
        guid: format!("g{id}"),
        description: String::new(),
        pubdate: Some(id * 10),
        duration: None,
        path: path.map(str::to_string),
        played,
        image_url: None,
    }
}

fn podcast(id: i64, title: &str, image: Option<&str>, episodes: Vec<Episode>) -> Podcast {
    Podcast {
        id,
        title: title.to_string(),
        url: format!("http://pod{id}"),
        description: None,
        author: None,
        explicit: None,
        last_checked: 0,
        episodes,
        image_url: image.map(str::to_string),
    }
}

fn track(file: &str, name: &str, artist: &str, album: &str) -> TrackDB {
    TrackDB {
        file: file.to_string(),
        name: name.to_string(),
        directory: "/m".to_string(),
        title: name.to_string(),
        artist: artist.to_string(),
        album: album.to_string(),
        genre: "g".to_string(),
        duration: None,
        last_modified: 0,
        last_position: 0,
    }
}

fn model() -> Model {
    let mut db = Catalog::new();
    db.upsert(track("/m/1.mp3", "Song 10", "Abba", "Gold"));
    db.upsert(track("/m/2.mp3", "Song 2", "Abba", "Gold"));
    db.upsert(track("/m/3.mp3", "Other", "Queen", "Jazz"));
    let mut m = Model::new(db);
    m.podcast.podcasts = vec![
        podcast(
            10,
            "First: show",
            Some("http://img1"),
            vec![episode(1, 10, "http://e1", None, false), episode(2, 10, "http://e2", Some("/d/e2.mp3"), true)],
        ),
        podcast(20, "Second", None, vec![episode(3, 20, "http://e3", Some("/d/e3.mp3"), false)]),
        podcast(30, "Third", Some("http://img3"), vec![]),
    ];
    m
}

#[test]
fn find_by_episode_id_selects_the_podcast() {
    let mut m = model();
    assert_eq!(m.podcast_find_by_ep_id(3), Ok((1, 0)));
    assert_eq!(m.podcast.podcasts_index, 1);
    assert_eq!(m.podcast_find_by_ep_id(2), Ok((0, 1)));
    assert_eq!(m.podcast.podcasts_index, 0);
    m.podcast.podcasts_index = 2;
    assert_eq!(m.podcast_find_by_ep_id(99), Err(ModelError::EpisodeNotFound));
    assert_eq!(m.podcast.podcasts_index, 2);
    assert_eq!(ModelError::EpisodeNotFound.to_string(), "Cannot find ep_id");
}

#[test]
fn find_by_podcast_id_selects_the_podcast() {
    let mut m = model();
    assert_eq!(m.podcast_find_by_pod_id(30), Ok(2));
    assert_eq!(m.podcast.podcasts_index, 2);
    assert_eq!(m.podcast_find_by_pod_id(5), Err(ModelError::PodcastNotFound));
    assert_eq!(m.podcast.podcasts_index, 2);
    assert_eq!(ModelError::PodcastNotFound.to_string(), "Cannot find pod_id");
}

#[test]
fn album_photo_by_episode_address() {
    let m = model();
    assert_eq!(m.podcast_get_album_photo_by_url("http://e2"), Some("http://img1".to_string()));
    assert_eq!(m.podcast_get_album_photo_by_url("http://e3"), None);
    assert_eq!(m.podcast_get_album_photo_by_url("http://none"), None);
}

#[test]
fn mark_played_turns_the_mark_over() {
    let mut m = model();
    assert_eq!(m.episode_mark_played(0), Ok(Some((1, true))));
    assert!(m.podcast.podcasts[0].episodes[0].played);
    assert_eq!(m.episode_mark_played(0), Ok(Some((1, false))));
    assert!(!m.podcast.podcasts[0].episodes[0].played);
    assert_eq!(m.episode_mark_played(5), Err(ModelError::EpisodeNotSelected));
    m.podcast.podcasts_index = 7;
    assert_eq!(m.episode_mark_played(0), Err(ModelError::PodcastNotSelected));
    m.podcast.podcasts.clear();
    assert_eq!(m.episode_mark_played(0), Ok(None));
    assert_eq!(ModelError::PodcastNotSelected.to_string(), "get podcast selected failed.");
    assert_eq!(ModelError::EpisodeNotSelected.to_string(), "get episode selected failed");
}

#[test]
fn mark_all_played_goes_by_the_selected_episode() {
    let mut m = model();
    assert_eq!(m.episode_mark_all_played(0), Ok(Some((vec![1, 2], true))));
    assert!(m.podcast.podcasts[0].episodes.iter().all(|e| e.played));
    assert_eq!(m.episode_mark_all_played(1), Ok(Some((vec![1, 2], false))));
    assert!(m.podcast.podcasts[0].episodes.iter().all(|e| !e.played));
    assert_eq!(m.episode_mark_all_played(2), Err(ModelError::EpisodeNotSelected));
    m.podcast.podcasts_index = 2;
    assert_eq!(m.episode_mark_all_played(0), Err(ModelError::EpisodeNotSelected));
}

#[test]
fn current_track_is_marked_once() {
    let mut m = model();
    assert_eq!(m.podcast_mark_current_track_played(Some("http://e3")), Some(3));
    assert!(m.podcast.podcasts[1].episodes[0].played);
    assert_eq!(m.podcast_mark_current_track_played(Some("http://e3")), None);
    assert_eq!(m.podcast_mark_current_track_played(Some("http://e2")), None);
    assert_eq!(m.podcast_mark_current_track_played(Some("http://none")), None);
    assert_eq!(m.podcast_mark_current_track_played(None), None);
}

#[test]
fn remove_feed_moves_the_selection() {
    let mut m = model();
    m.podcast.podcasts_index = 1;
    assert_eq!(m.podcast_remove_feed(Some(1)), Ok(Some(20)));
    assert_eq!(m.podcast.podcasts.len(), 2);
    assert_eq!(m.podcast.podcasts[1].id, 30);
    assert_eq!(m.podcast.podcasts_index, 0);
    assert_eq!(m.podcast_remove_feed(Some(5)), Err(ModelError::PodcastNotSelected));
    assert_eq!(m.podcast.podcasts.len(), 2);
    assert_eq!(m.podcast_remove_feed(None), Ok(None));
    assert_eq!(m.podcast.podcasts_index, 0);
    assert_eq!(m.podcast_remove_feed(Some(0)), Ok(Some(10)));
    assert_eq!(m.podcast_remove_feed(Some(0)), Ok(Some(30)));
    assert_eq!(m.podcast_remove_feed(Some(0)), Ok(None));
}

#[test]
fn remove_all_feeds_names_the_files() {
    let mut m = model();
    m.podcast.podcasts_index = 2;
    assert_eq!(m.podcast_remove_all_feeds(), vec!["/d/e2.mp3".to_string(), "/d/e3.mp3".to_string()]);
    assert_eq!(m.podcast.podcasts.len(), 0);
    assert_eq!(m.podcast.podcasts_index, 0);
    assert_eq!(m.podcast_remove_all_feeds(), Vec::<String>::new());
}

#[test]
fn download_takes_what_is_not_on_disk() {
    let mut m = model();
    m.podcast.podcasts[0].episodes.push(episode(4, 10, "http://e4", None, false));
    m.podcast.podcasts[0].episodes.push(episode(5, 10, "http://e5", None, false));
    m.download_tracker.push("http://e4".to_string());
    let plan = m.episode_download(None).unwrap().unwrap();
    assert_eq!(plan.dir_name, "First show");
    let ids: Vec<i64> = plan.episodes.iter().map(|e| e.id).collect();
    assert_eq!(ids, vec![1, 5]);
    assert_eq!(plan.episodes[0].pod_id, 10);
    assert_eq!(plan.episodes[0].title, "ep1");
    assert_eq!(plan.episodes[0].url, "http://e1");
    assert_eq!(plan.episodes[0].pubdate, Some(10));
    assert_eq!(plan.episodes[0].file_path, None);
    assert_eq!(m.episode_download(Some(0)).unwrap().unwrap().episodes.len(), 1);
    assert_eq!(m.episode_download(Some(1)).unwrap().unwrap().episodes.len(), 0);
    assert_eq!(m.episode_download(Some(2)).unwrap().unwrap().episodes.len(), 0);
    assert_eq!(m.episode_download(Some(9)).err(), Some(ModelError::EpisodeNotSelected));
    m.podcast.podcasts_index = 9;
    assert_eq!(m.episode_download(None).err(), Some(ModelError::PodcastNotSelected));
    m.podcast.podcasts.clear();
    assert!(m.episode_download(None).unwrap().is_none());
}

#[test]
fn refresh_names_the_feeds() {
    let m = model();
    let feed = |id: i64, title: &str| {
        PodcastFeed::new(Some(id), format!("http://pod{id}"), Some(title.to_string()))
    };
    assert_eq!(m.podcast_refresh_feeds(Some(1)), Ok(vec![feed(20, "Second")]));
    assert_eq!(
        m.podcast_refresh_feeds(None),
        Ok(vec![feed(10, "First: show"), feed(20, "Second"), feed(30, "Third")])
    );
    assert_eq!(m.podcast_refresh_feeds(Some(3)), Err(ModelError::PodcastNotSelected));
    let empty = Model::new(Catalog::new());
    assert_eq!(empty.podcast_refresh_feeds(Some(3)), Ok(vec![]));
    assert_eq!(empty.podcast_refresh_feeds(None), Ok(vec![]));
}

#[test]
fn search_tracks_follow_the_picked_result() {
    let mut m = model();
    m.dw.criteria = SearchCriteria::Artist;
    m.dw.search_results = vec!["Queen".to_string(), "Abba".to_string()];
    m.database_update_search_tracks(1, None);
    let names: Vec<&str> = m.dw.search_tracks.iter().map(|t| t.name.as_str()).collect();
    assert_eq!(names, vec!["Song 2", "Song 10"]);
    m.database_update_search_tracks(2, None);
    assert_eq!(m.dw.search_tracks.len(), 0);

    m.dw.criteria = SearchCriteria::Playlist;
    m.dw.search_results = vec!["/lists/a.m3u".to_string()];
    let entries = vec!["/m/3.mp3".to_string(), "/m/x.mp3".to_string(), "/m/1.mp3".to_string()];
    m.database_update_search_tracks(0, Some(&entries));
    let names: Vec<&str> = m.dw.search_tracks.iter().map(|t| t.name.as_str()).collect();
    assert_eq!(names, vec!["Other", "Song 10"]);
    m.database_update_search_tracks(0, None);
    assert_eq!(m.dw.search_tracks.len(), 0);
}

#[test]
fn all_results_are_added_result_by_result() {
    let mut m = model();
    m.dw.criteria = SearchCriteria::Album;
    m.dw.search_results = vec!["Jazz".to_string(), "None".to_string(), "Gold".to_string()];
    let names: Vec<String> =
        m.database_add_all_results(&vec![]).into_iter().map(|t| t.name).collect();
    assert_eq!(names, vec!["Other", "Song 2", "Song 10"]);

    m.dw.criteria = SearchCriteria::Playlist;
    m.dw.search_results = vec!["a.m3u".to_string(), "b.m3u".to_string(), "c.m3u".to_string()];
    let playlists = vec![Some(vec!["/m/2.mp3".to_string()]), None];
    let names: Vec<String> =
        m.database_add_all_results(&playlists).into_iter().map(|t| t.name).collect();
    assert_eq!(names, vec!["Song 2"]);
}

#[test]
fn search_finds_artist_title_or_album() {
    let songs = vec![
        track("/m/1.mp3", "Dancing Queen", "Abba", "Arrival"),
        track("/m/2.mp3", "Bohemian", "Queen", "Opera"),
        track("/m/3.mp3", "Song", "Abba", "Queens of pop"),
        track("/m/4.mp3", "Song", "Other", "Album"),
    ];
    assert_eq!(Model::update_search(&songs, "queen"), vec![0, 1, 2]);
    assert_eq!(Model::update_search(&songs, "QUEEN"), vec![0, 1, 2]);
    assert_eq!(Model::update_search(&songs, "a?ba"), vec![0, 2]);
    assert_eq!(Model::update_search(&songs, ""), vec![0, 1, 2, 3]);
    assert_eq!(Model::update_search(&songs, "/m/"), Vec::<usize>::new());
    assert!(Model::match_record(&songs[3], "*oth*"));
    assert!(!Model::match_record(&songs[3], "oth"));
}

#[test]
fn track_offers_its_fields() {
    let t = track("/m/1.mp3", "Title", "Artist", "Album");
    assert_eq!(t.meta_file(), Some("/m/1.mp3".to_string()));
    assert_eq!(t.meta_title(), Some("Title"));
    assert_eq!(t.meta_artist(), Some("Artist"));
    assert_eq!(t.meta_album(), Some("Album"));
    assert_eq!(t.meta_duration(), None);
}

#[test]
fn display_names_of_results() {
    assert_eq!(display_name(SearchCriteria::Artist, "A/B"), "A/B");
    assert_eq!(display_name(SearchCriteria::Playlist, "/home/u/lists/a.m3u"), "lists/a.m3u");
    assert_eq!(display_name(SearchCriteria::Directory, "/home/u/music"), "u/music/");
    assert_eq!(display_name(SearchCriteria::Directory, "/music"), "/music/");
    assert_eq!(display_name(SearchCriteria::Playlist, "a.m3u"), "");
    assert_eq!(display_name(SearchCriteria::Directory, "music"), "");
    assert_eq!(display_name(SearchCriteria::Playlist, "lists/"), "lists/");
}

#[test]
fn rows_of_the_criteria_list() {
    assert_eq!(DBCriteria::num_options(), 5);
    assert_eq!(DBCriteria::from_table_index(0), Some(DBCriteria::Artists));
    assert_eq!(DBCriteria::from_table_index(1), Some(DBCriteria::Albums));
    assert_eq!(DBCriteria::from_table_index(2), Some(DBCriteria::Genres));
    assert_eq!(DBCriteria::from_table_index(3), Some(DBCriteria::Directories));
    assert_eq!(DBCriteria::from_table_index(4), Some(DBCriteria::Playlists));
    assert_eq!(DBCriteria::from_table_index(5), None);
    assert_eq!(SearchCriteria::from(DBCriteria::Artists), SearchCriteria::Artist);
    assert_eq!(SearchCriteria::from(DBCriteria::Albums), SearchCriteria::Album);
    assert_eq!(SearchCriteria::from(DBCriteria::Genres), SearchCriteria::Genre);
    assert_eq!(SearchCriteria::from(DBCriteria::Directories), SearchCriteria::Directory);
    assert_eq!(SearchCriteria::from(DBCriteria::Playlists), SearchCriteria::Playlist);
}

#[test]
fn search_results_follow_the_criterion() {
    let mut m = model();
    m.dw.criteria = SearchCriteria::Artist;
    m.database_update_search_results(&vec![]);
    assert_eq!(m.dw.search_results, vec!["Abba".to_string(), "Queen".to_string()]);
    m.dw.criteria = SearchCriteria::Playlist;
    m.database_update_search_results(&vec![
        "/l/list 10.m3u".to_string(),
        "/l/list 9.m3u".to_string(),
        "/l/a.pls".to_string(),
    ]);
    assert_eq!(
        m.dw.search_results,
        vec!["/l/a.pls".to_string(), "/l/list 9.m3u".to_string(), "/l/list 10.m3u".to_string()]
    );
}

#[test]
fn deleting_the_file_of_an_episode() {
    let mut m = model();
    assert_eq!(m.episode_delete_file(1), Ok(Some((2, "/d/e2.mp3".to_string()))));
    assert_eq!(m.podcast.podcasts[0].episodes[1].path, None);
    assert_eq!(m.episode_delete_file(1), Ok(None));
    assert_eq!(m.episode_delete_file(0), Ok(None));
    assert_eq!(m.episode_delete_file(2), Err(ModelError::EpisodeNotSelected));
    m.podcast.podcasts_index = 3;
    assert_eq!(m.episode_delete_file(0), Err(ModelError::PodcastNotSelected));
    m.podcast.podcasts.clear();
    assert_eq!(m.episode_delete_file(0), Ok(None));
}

#[test]
fn deleting_the_files_of_a_podcast() {
    let mut m = model();
    m.podcast.podcasts[0].episodes.push(episode(4, 10, "http://e4", Some("/d/e4.mp3"), false));
    assert_eq!(
        m.podcast_file_paths(0),
        Ok(vec!["/d/e2.mp3".to_string(), "/d/e4.mp3".to_string()])
    );
    assert_eq!(m.podcast_file_paths(2), Ok(vec![]));
    assert_eq!(m.podcast_file_paths(3), Err(ModelError::PodcastNotSelected));

    let done = m.podcast_delete_files(0, &vec!["/d/e4.mp3".to_string(), "/x".to_string()]).unwrap();
    assert_eq!(done.ids, vec![4]);
    assert!(!done.all);
    assert_eq!(m.podcast.podcasts[0].episodes[1].path, Some("/d/e2.mp3".to_string()));
    assert_eq!(m.podcast.podcasts[0].episodes[2].path, None);

    let done = m.podcast_delete_files(0, &vec!["/d/e2.mp3".to_string()]).unwrap();
    assert_eq!(done.ids, vec![2]);
    assert!(done.all);
    let done = m.podcast_delete_files(2, &vec![]).unwrap();
    assert_eq!(done.ids, Vec::<i64>::new());
    assert!(done.all);
    assert_eq!(m.podcast_delete_files(3, &vec![]).err(), Some(ModelError::PodcastNotSelected));
}

#[test]
fn search_in_titles_of_podcasts_and_episodes() {
    let m = model();
    assert_eq!(m.podcast_update_search_podcast("S"), vec![0, 1]);
    assert_eq!(m.podcast_update_search_podcast("third"), vec![2]);
    assert_eq!(m.podcast_update_search_podcast(""), vec![0, 1, 2]);
    assert_eq!(m.podcast_update_search_podcast("zzz"), Vec::<usize>::new());
    assert_eq!(m.podcast_update_search_episode("EP"), vec![(0, 0), (0, 1), (1, 0)]);
    assert_eq!(m.podcast_update_search_episode("p3"), vec![(1, 0)]);
    assert_eq!(m.podcast_update_search_episode("?p2"), vec![(0, 1)]);
    assert_eq!(m.podcast_update_search_episode("none"), Vec::<(usize, usize)>::new());
}

#[test]
fn rows_of_the_lists() {
    let mut m = model();
    let row = |text: &str, marked: bool| ListRow { text: text.to_string(), marked };
    assert_eq!(
        m.podcast_sync_feeds_and_episodes(),
        vec![row("First: show (1/2)", true), row("Second (1/1)", true), row("Third (0/0)", false)]
    );
    assert_eq!(
        m.podcast_sync_episodes(),
        Ok(vec![row("ep1", false), row("[D] ep2", true)])
    );
    m.podcast.podcasts_index = 2;
    assert_eq!(m.podcast_sync_episodes(), Ok(vec![]));
    m.podcast.podcasts_index = 3;
    assert_eq!(m.podcast_sync_episodes(), Err(ModelError::PodcastNotSelected));
    m.podcast.podcasts.clear();
    assert_eq!(m.podcast_sync_episodes(), Ok(vec![]));
    assert_eq!(m.podcast_sync_feeds_and_episodes(), vec![]);

    m.dw.criteria = SearchCriteria::Playlist;
    m.dw.search_results =
        vec!["/l/a.m3u".to_string(), "b.m3u".to_string(), "/home/l/c.m3u".to_string()];
    assert_eq!(
        m.database_sync_results(),
        vec![(1, "l/a.m3u".to_string()), (2, "l/c.m3u".to_string())]
    );
    m.dw.criteria = SearchCriteria::Genre;
    assert_eq!(
        m.database_sync_results(),
        vec![(1, "/l/a.m3u".to_string()), (2, "b.m3u".to_string()), (3, "/home/l/c.m3u".to_string())]
    );

    let mut untitled = track("/m/9.mp3", "file name", "a", "b");
    untitled.title = String::new();
    m.dw.search_tracks = vec![track("/m/1.mp3", "Title", "a", "b"), untitled];
    assert_eq!(m.database_sync_tracks(), vec!["Title".to_string(), "file name".to_string()]);
}
