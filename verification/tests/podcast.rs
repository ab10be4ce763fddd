use termusic_core::podcast::{
    clone_ep_data, clone_feed, download_result_message, download_start_messages,
    duration_from_groups, duration_to_int, episode_file_name, explicit_flag, export_opml_feeds,
    extension_for, feed_result_message, feed_start_message, feeds_from_outlines,
    import_opml_feeds, itunes_search_url, new_episodes, new_feeds, parse_episode_data,
    parse_feed_data,
    parse_itunes_results, read_feed, tries_left_after_failure, unix_seconds, ChannelData, DownloadOutcome,
    EpData, Episode, EpisodeNoId, ImportEvent, ImportProgress, ItemData, ItunesChannel,
    ItunesItem, OpmlError,
    OutlineData, PCMsg, Podcast, PodcastFeed, PodcastNoId,
};

fn feed(id: Option<i64>, url: &str, title: Option<&str>) -> PodcastFeed {
    PodcastFeed::new(id, url.to_string(), title.map(str::to_string))
}

fn podcast(id: i64, url: &str, title: &str) -> Podcast {
    Podcast {
        id,
        title: title.to_string(),
        url: url.to_string(),
        description: None,
        author: None,
        explicit: None,
        last_checked: 0,
        episodes: vec![],
        image_url: None,
    }
}

fn pod_no_id(title: &str) -> PodcastNoId {
    PodcastNoId {
        title: title.to_string(),
        url: "u".to_string(),
        description: None,
        author: None,
        explicit: None,
        last_checked: 7,
        episodes: vec![],
        image_url: None,
    }
}

fn ep_data() -> EpData {
    EpData {
        id: 3,
        pod_id: 1,
        title: "t".to_string(),
        url: "u".to_string(),
        pubdate: Some(5),
        file_path: None,
    }
}

#[test]
fn duration_of_hours_minutes_seconds() {
    assert_eq!(duration_to_int(Some("1:02:03")), Some(3723));
}

#[test]
fn duration_forms() {
    assert_eq!(duration_to_int(Some("2:03")), Some(123));
    assert_eq!(duration_to_int(Some("45")), Some(45));
    assert_eq!(duration_to_int(Some("abc")), None);
    assert_eq!(duration_to_int(Some("")), None);
    assert_eq!(duration_to_int(None), None);
    assert_eq!(duration_to_int(Some("about 10:00 long")), Some(600));
    assert_eq!(duration_to_int(Some("1:2:3:4")), Some(3723));
}

#[test]
fn duration_beyond_32_bits_is_none() {
    assert_eq!(duration_to_int(Some("2147483647")), Some(2147483647));
    assert_eq!(duration_to_int(Some("2147483648")), None);
    assert_eq!(duration_to_int(Some("596523:14:07")), Some(2147483647));
    assert_eq!(duration_to_int(Some("596523:14:08")), None);
    assert_eq!(duration_to_int(Some("\u{0661}\u{0662}")), None);
}

#[test]
fn duration_from_groups_counts_the_parts() {
    let g = |v: &[Option<&str>]| -> Vec<Option<String>> {
        v.iter().map(|s| s.map(str::to_string)).collect()
    };
    assert_eq!(duration_from_groups(&g(&[Some("1:02:03"), Some("1"), Some("02"), Some("03")])), Some(3723));
    assert_eq!(duration_from_groups(&g(&[Some("2:03"), Some("2"), Some("03"), None])), Some(123));
    assert_eq!(duration_from_groups(&g(&[Some("45"), Some("45"), None, None])), Some(45));
    assert_eq!(duration_from_groups(&g(&[Some("45"), None, Some("45"), None])), Some(45));
    assert_eq!(duration_from_groups(&g(&[Some("45")])), None);
    assert_eq!(duration_from_groups(&g(&[])), None);
    assert_eq!(duration_from_groups(&g(&[None, Some("x")])), None);
    assert_eq!(duration_from_groups(&g(&[None, Some("1"), Some("1"), Some("1"), Some("1")])), None);
    assert_eq!(duration_from_groups(&g(&[None, Some("-1"), Some("0"), Some("30")])), Some(-3570));
}

#[test]
fn extension_of_missing_content_type_is_mp3() {
    assert_eq!(extension_for(None), "mp3");
}

#[test]
fn extension_table() {
    assert_eq!(extension_for(Some("audio/x-m4a")), "m4a");
    assert_eq!(extension_for(Some("audio/mp4")), "m4a");
    assert_eq!(extension_for(Some("audio/x-matroska")), "mka");
    assert_eq!(extension_for(Some("audio/flac")), "flac");
    assert_eq!(extension_for(Some("video/quicktime")), "mov");
    assert_eq!(extension_for(Some("video/mp4")), "mp4");
    assert_eq!(extension_for(Some("video/x-m4v")), "m4v");
    assert_eq!(extension_for(Some("video/x-matroska")), "mkv");
    assert_eq!(extension_for(Some("video/webm")), "webm");
    assert_eq!(extension_for(Some("audio/mpeg")), "mp3");
    assert_eq!(extension_for(Some("AUDIO/FLAC")), "mp3");
    assert_eq!(extension_for(Some("")), "mp3");
}

#[test]
fn explicit_tags() {
    assert_eq!(explicit_flag("yes"), Some(true));
    assert_eq!(explicit_flag("YES"), Some(true));
    assert_eq!(explicit_flag("Explicit"), Some(true));
    assert_eq!(explicit_flag("true"), Some(true));
    assert_eq!(explicit_flag("no"), Some(false));
    assert_eq!(explicit_flag("Clean"), Some(false));
    assert_eq!(explicit_flag("FALSE"), Some(false));
    assert_eq!(explicit_flag("maybe"), None);
    assert_eq!(explicit_flag(""), None);
}

#[test]
fn file_name_has_title_date_and_extension() {
    assert_eq!(
        episode_file_name("My: Episode? 1", Some(0), "mp3"),
        "My Episode 1_19700101_000000.mp3"
    );
    assert_eq!(
        episode_file_name("Show", Some(1_700_000_000), "m4a"),
        "Show_20231114_221320.m4a"
    );
    assert_eq!(episode_file_name("a/b", None, "flac"), "ab.flac");
    assert_eq!(episode_file_name("x", Some(i64::MAX), "mp3"), "x.mp3");
}

#[test]
fn feed_messages() {
    let f = feed(Some(4), "http://a", None);
    assert_eq!(feed_start_message(&f), PCMsg::FetchPodcastStart("http://a".to_string()));
    assert_eq!(
        feed_result_message(clone_feed(&f), Some(pod_no_id("p"))),
        PCMsg::SyncData(4, pod_no_id("p"))
    );
    assert_eq!(
        feed_result_message(feed(None, "http://a", None), Some(pod_no_id("p"))),
        PCMsg::NewData(pod_no_id("p"))
    );
    assert_eq!(feed_result_message(clone_feed(&f), None), PCMsg::Error(f));
}

#[test]
fn tries_run_out() {
    assert_eq!(tries_left_after_failure(3), Some(2));
    assert_eq!(tries_left_after_failure(2), Some(1));
    assert_eq!(tries_left_after_failure(1), None);
    assert_eq!(tries_left_after_failure(0), None);
    assert_eq!(tries_left_after_failure(usize::MAX), Some(usize::MAX - 1));
    let mut requests = 1;
    let mut left = 5;
    while let Some(next) = tries_left_after_failure(left) {
        left = next;
        requests += 1;
    }
    assert_eq!(requests, 5);
}

#[test]
fn download_messages() {
    let with_path = |p: &str| EpData { file_path: Some(p.to_string()), ..ep_data() };
    assert_eq!(
        download_result_message(ep_data(), DownloadOutcome::NoResponse),
        PCMsg::DLResponseError(ep_data())
    );
    assert_eq!(
        download_result_message(ep_data(), DownloadOutcome::CreateFailed),
        PCMsg::DLFileCreateError(ep_data())
    );
    assert_eq!(
        download_result_message(ep_data(), DownloadOutcome::BodyFailed("/d/f".to_string())),
        PCMsg::DLFileCreateError(with_path("/d/f"))
    );
    assert_eq!(
        download_result_message(ep_data(), DownloadOutcome::WriteFailed("/d/f".to_string())),
        PCMsg::DLFileWriteError(with_path("/d/f"))
    );
    assert_eq!(
        download_result_message(ep_data(), DownloadOutcome::Written("/d/f".to_string())),
        PCMsg::DLComplete(with_path("/d/f"))
    );
    let eps = vec![ep_data(), with_path("x")];
    assert_eq!(
        download_start_messages(&eps),
        vec![PCMsg::DLStart(ep_data()), PCMsg::DLStart(with_path("x"))]
    );
    assert_eq!(clone_ep_data(&eps[1]), with_path("x"));
}

#[test]
fn opml_import_takes_title_then_text() {
    let xml = r#"<opml version="2.0"><head><title>x</title></head><body>
<outline text="t1" type="rss" xmlUrl="u1" title="T1"/>
<outline text="text2" xmlUrl="u2" title=""/>
<outline text="" xmlUrl="u3"/>
<outline text="folder"><outline text="inner" xmlUrl="u4"/></outline>
</body></opml>"#;
    assert_eq!(
        import_opml_feeds(xml),
        Ok(vec![
            feed(None, "u1", Some("T1")),
            feed(None, "u2", Some("text2")),
            feed(None, "u3", None),
        ])
    );
}

#[test]
fn opml_import_versions_and_errors() {
    let doc = |version: &str| {
        format!(
            r#"<opml version="{version}"><head/><body><outline text="a" xmlUrl="u"/></body></opml>"#
        )
    };
    assert_eq!(import_opml_feeds(&doc("1.0")), Ok(vec![feed(None, "u", Some("a"))]));
    assert_eq!(import_opml_feeds(&doc("1.1")), Ok(vec![feed(None, "u", Some("a"))]));
    assert_eq!(import_opml_feeds(&doc("2.0")), Ok(vec![feed(None, "u", Some("a"))]));
    assert_eq!(import_opml_feeds(&doc("3.0")), Err(OpmlError::Malformed));
    assert_eq!(import_opml_feeds("not xml"), Err(OpmlError::Malformed));
    assert_eq!(
        import_opml_feeds(r#"<opml version="2.0"><head/><body></body></opml>"#),
        Err(OpmlError::Malformed)
    );
    assert_eq!(
        OpmlError::Malformed.to_string(),
        "Could not properly parse OPML file -- file may be formatted improperly or corrupted."
    );
}

#[test]
fn outlines_without_address_name_no_feed() {
    let outlines = vec![
        OutlineData { text: "a".to_string(), title: None, xml_url: None },
        OutlineData { text: "b".to_string(), title: Some("B".to_string()), xml_url: Some("u".to_string()) },
    ];
    assert_eq!(feeds_from_outlines(&outlines), vec![feed(None, "u", Some("B"))]);
}

#[test]
fn opml_round_trip() {
    let podcasts = vec![podcast(1, "u1", "t1"), podcast(2, "u2", "t2")];
    let doc = export_opml_feeds(&podcasts, "Thu, 01 Jan 1970 00:00:00 +0000".to_string());
    assert_eq!(doc.title, "Termusic Podcast Feeds");
    assert_eq!(doc.date_created, "Thu, 01 Jan 1970 00:00:00 +0000");
    let mut xml = format!(
        "<opml version=\"2.0\"><head><title>{}</title><dateCreated>{}</dateCreated></head><body>",
        doc.title, doc.date_created
    );
    for o in &doc.outlines {
        assert_eq!(o.kind, "rss");
        xml += &format!(
            "<outline text=\"{}\" type=\"{}\" xmlUrl=\"{}\" title=\"{}\"/>",
            o.text, o.kind, o.xml_url, o.title
        );
    }
    xml += "</body></opml>";
    assert_eq!(
        import_opml_feeds(&xml),
        Ok(vec![feed(None, "u1", Some("t1")), feed(None, "u2", Some("t2"))])
    );
}

#[test]
fn known_feeds_are_not_imported_again() {
    let list = vec![
        feed(None, "u1", Some("a")),
        feed(None, "u2", Some("b")),
        feed(None, "u3", None),
        feed(None, "u2", Some("again")),
    ];
    let old = vec![podcast(1, "u2", "b")];
    assert_eq!(
        new_feeds(&list, &old),
        vec![feed(None, "u1", Some("a")), feed(None, "u3", None)]
    );
    assert_eq!(new_feeds(&list, &vec![]), list);
}

#[test]
fn import_waits_for_each_feed_once() {
    let mut progress = ImportProgress::new(3);
    assert!(!progress.is_done());
    assert!(!progress.on_event(ImportEvent::Other));
    assert!(!progress.on_event(ImportEvent::NewData { stored: true }));
    assert!(!progress.failure);
    assert!(!progress.on_event(ImportEvent::SyncData));
    assert!(progress.on_event(ImportEvent::Error));
    assert!(progress.failure);
    assert_eq!(progress.received, 3);

    let mut progress = ImportProgress::new(1);
    assert!(progress.on_event(ImportEvent::NewData { stored: false }));
    assert!(progress.failure);
    assert!(ImportProgress::new(0).is_done());
}

const FEED: &str = r#"<?xml version="1.0" encoding="UTF-8"?>
<rss version="2.0" xmlns:itunes="http://www.itunes.com/dtds/podcast-1.0.dtd">
<channel>
<title>Show</title>
<link>http://example.com</link>
<description>About the show</description>
<itunes:author>Someone</itunes:author>
<itunes:explicit>Yes</itunes:explicit>
<itunes:image href="http://example.com/p.png"/>
<item>
<title>Ep 1</title>
<guid>g1</guid>
<description>First</description>
<pubDate>Thu, 01 Jan 1970 00:01:00 +0000</pubDate>
<enclosure url="http://example.com/1.mp3" length="1" type="audio/mpeg"/>
<itunes:duration>1:02:03</itunes:duration>
<itunes:image href="http://example.com/e1.png"/>
</item>
<item>
<title>Ep 2</title>
<pubDate>not a date</pubDate>
</item>
</channel>
</rss>"#;

#[test]
fn feed_is_read_with_its_episodes() {
    let pod = read_feed(FEED.as_bytes(), "http://example.com/feed").unwrap();
    assert_eq!(pod.title, "Show");
    assert_eq!(pod.url, "http://example.com/feed");
    assert_eq!(pod.description, Some("About the show".to_string()));
    assert_eq!(pod.author, Some("Someone".to_string()));
    assert_eq!(pod.explicit, Some(true));
    assert_eq!(pod.image_url, Some("http://example.com/p.png".to_string()));
    assert_eq!(pod.episodes.len(), 2);
    assert!(pod.last_checked > 1_600_000_000);
    let first = &pod.episodes[0];
    assert_eq!(first.title, "Ep 1");
    assert_eq!(first.url, "http://example.com/1.mp3");
    assert_eq!(first.guid, "g1");
    assert_eq!(first.description, "First");
    assert_eq!(first.pubdate, Some(60));
    assert_eq!(first.duration, Some(3723));
    assert_eq!(first.image_url, Some("http://example.com/e1.png".to_string()));
    let second = &pod.episodes[1];
    assert_eq!(second.title, "Ep 2");
    assert_eq!(second.url, "");
    assert_eq!(second.guid, "");
    assert_eq!(second.description, "");
    assert_eq!(second.pubdate, None);
    assert_eq!(second.duration, None);
    assert_eq!(second.image_url, None);
}

#[test]
fn what_is_no_feed_is_not_read() {
    assert_eq!(read_feed(b"<html></html>", "u"), None);
    assert_eq!(read_feed(b"", "u"), None);
}

#[test]
fn feed_data_without_itunes_tags() {
    let channel = ChannelData {
        title: "T".to_string(),
        description: "D".to_string(),
        itunes: None,
        items: vec![ItemData {
            title: None,
            enclosure_url: Some("e".to_string()),
            guid: Some("g".to_string()),
            description: None,
            pub_date: Some("Fri, 02 Jan 1970 00:00:00 GMT".to_string()),
            itunes: Some(ItunesItem { duration: Some("2:03".to_string()), image: None }),
        }],
    };
    let pod = parse_feed_data(&channel, "addr", 99);
    assert_eq!(pod.title, "T");
    assert_eq!(pod.url, "addr");
    assert_eq!(pod.description, Some("D".to_string()));
    assert_eq!(pod.author, None);
    assert_eq!(pod.explicit, None);
    assert_eq!(pod.image_url, None);
    assert_eq!(pod.last_checked, 99);
    assert_eq!(pod.episodes, vec![parse_episode_data(&channel.items[0])]);
    let ep = &pod.episodes[0];
    assert_eq!(ep.title, "");
    assert_eq!(ep.url, "e");
    assert_eq!(ep.guid, "g");
    assert_eq!(ep.pubdate, Some(86_400));
    assert_eq!(ep.duration, Some(123));

    let tagged = ChannelData {
        itunes: Some(ItunesChannel {
            author: Some("A".to_string()),
            explicit: Some("clean".to_string()),
            image: None,
        }),
        items: vec![],
        ..channel
    };
    let pod = parse_feed_data(&tagged, "addr", 1);
    assert_eq!(pod.author, Some("A".to_string()));
    assert_eq!(pod.explicit, Some(false));
    assert_eq!(pod.episodes.len(), 0);
}

#[test]
fn itunes_answer_names_feeds() {
    let data = r#"{"resultCount":3,"results":[
        {"collectionName":"One","feedUrl":"http://one"},
        {"collectionName":"No address"},
        {"collectionName":5,"feedUrl":"http://five"},
        {"feedUrl":"http://two","collectionName":"Two"}]}"#;
    assert_eq!(
        parse_itunes_results(data),
        Some(vec![feed(None, "http://one", Some("One")), feed(None, "http://two", Some("Two"))])
    );
    assert_eq!(parse_itunes_results(r#"{"results":[]}"#), Some(vec![]));
    assert_eq!(parse_itunes_results(r#"{"results":5}"#), None);
    assert_eq!(parse_itunes_results(r#"{"other":[]}"#), None);
    assert_eq!(parse_itunes_results("not json"), None);
}

#[test]
fn itunes_search_address() {
    assert_eq!(
        itunes_search_url("a b&c"),
        "https://itunes.apple.com/search?media=podcast&entity=podcast&term=a%20b%26c"
    );
    assert_eq!(
        itunes_search_url(""),
        "https://itunes.apple.com/search?media=podcast&entity=podcast&term="
    );
}

#[test]
fn refresh_adds_each_episode_once() {
    let fetched_ep = |guid: &str, title: &str| EpisodeNoId {
        title: title.to_string(),
        url: format!("http://{guid}"),
        guid: guid.to_string(),
        description: String::new(),
        pubdate: None,
        duration: None,
        image_url: None,
    };
    let stored = |id: i64, ep: &EpisodeNoId| Episode {
        id,
        pod_id: 1,
        title: ep.title.clone(),
        url: ep.url.clone(),
        guid: ep.guid.clone(),
        description: ep.description.clone(),
        pubdate: ep.pubdate,
        duration: ep.duration,
        path: None,
        played: false,
        image_url: None,
    };
    let fetched = vec![
        fetched_ep("g1", "one"),
        fetched_ep("g2", "two"),
        fetched_ep("g1", "one again"),
        fetched_ep("g3", "three"),
    ];
    let mut existing = vec![stored(1, &fetched[1])];
    let added = new_episodes(&existing, &fetched);
    assert_eq!(added, vec![fetched_ep("g1", "one"), fetched_ep("g3", "three")]);
    for (n, ep) in added.iter().enumerate() {
        existing.push(stored(10 + n as i64, ep));
    }
    assert_eq!(new_episodes(&existing, &fetched), vec![]);
    let mut guids: Vec<&str> = existing.iter().map(|e| e.guid.as_str()).collect();
    guids.sort_unstable();
    guids.dedup();
    assert_eq!(guids.len(), existing.len());
    assert_eq!(new_episodes(&vec![], &vec![]), vec![]);
}

#[test]
fn seconds_since_1970_on_both_sides() {
    assert_eq!(unix_seconds(Ok(0)), 0);
    assert_eq!(unix_seconds(Ok(1_700_000_000)), 1_700_000_000);
    assert_eq!(unix_seconds(Err(5)), -5);
    assert_eq!(unix_seconds(Ok(u64::MAX)), i64::MAX);
    assert_eq!(unix_seconds(Err(u64::MAX)), -i64::MAX);
    assert_eq!(unix_seconds(Ok(i64::MAX as u64)), i64::MAX);
}
