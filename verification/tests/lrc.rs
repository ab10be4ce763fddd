use termusic_core::lrc::{time_lrc, Caption, Lyric};
use termusic_core::player::PlayerTimeUnit;

fn cap(timestamp: i64, text: &str) -> Caption {
    Caption::new(timestamp, text.to_string())
}

#[test]
fn should_parse_simple() {
    let txt = r"[al:Album Title]
[ar:Performing Artist]
[by:Lyric creator]
[offset:+10]
[re:Lyric creator App]
[ve:Lyric creator version]
[ti:Song Title]
[au:Song Author]
[00:12.00]Lyrics beginning ...
[00:15.30]Some more lyrics ...
[10:11.12]Extra Lyrics";

    let lyrics = Lyric::from_str(txt).unwrap();

    assert_eq!(lyrics.offset, 10);

    assert_eq!(
        lyrics.captions.as_slice(),
        &[
            cap(12 * 1000, "Lyrics beginning ..."),
            cap((15 * 1000) + 300, "Some more lyrics ..."),
            cap((10 * 60 * 1000) + (11 * 1000) + 120, "Extra Lyrics"),
        ]
    );
}

#[test]
fn should_parse_minimal() {
    let txt = r"[00:12.00]Lyrics beginning ...";

    let lyrics = Lyric::from_str(txt).unwrap();

    assert_eq!(lyrics.offset, 0);

    assert_eq!(
        lyrics.captions.as_slice(),
        &[cap(12 * 1000, "Lyrics beginning ...")]
    );
}

#[test]
fn should_parse_milliseconds() {
    let txt = r"[00:12.305]Lyrics beginning ...";

    let lyrics = Lyric::from_str(txt).unwrap();

    assert_eq!(lyrics.offset, 0);

    assert_eq!(
        lyrics.captions.as_slice(),
        &[cap(12 * 1000 + 305, "Lyrics beginning ...")]
    );
}

#[test]
fn should_handle_empty() {
    let txt = "";

    let lyrics = Lyric::from_str(txt).unwrap();

    assert_eq!(lyrics.captions.len(), 0);
}

#[test]
fn should_format_as_lrc() {
    let lyrics = Lyric {
        offset: 10,
        captions: vec![
            cap(12 * 1000, "Lyrics beginning ..."),
            cap((15 * 1000) + 300, "Some more lyrics ..."),
            cap((10 * 60 * 1000) + (11 * 1000) + 120, "Extra Lyrics"),
        ],
    };

    assert_eq!(
        lyrics.as_lrc_text(),
        r"[offset:10]
[00:12.00]Lyrics beginning ...
[00:15.30]Some more lyrics ...
[10:11.12]Extra Lyrics
"
    );
}

#[test]
fn should_merge_adjacent() {
    let mut lyrics = Lyric {
        offset: 0,
        captions: vec![
            cap(1000, "unmerged1"),
            cap(3 * 1000, "merged1"),
            cap(4 * 1000, "merged2"),
            cap(5 * 1000, "unmerged2"),
        ],
    };

    lyrics.merge_adjacent();

    assert_eq!(
        lyrics.captions.as_slice(),
        &[
            cap(1000, "unmerged1"),
            cap(3 * 1000, "merged1  merged2"),
            cap(5 * 1000, "unmerged2"),
        ]
    );
}

#[test]
fn should_adjust_offset() {
    let mut lyrics = Lyric {
        offset: 0,
        captions: vec![
            cap(5 * 1000, "changed offset"),
            cap(11 * 1000, "unchanged1"),
            cap(13 * 1000, "changed1"),
            cap(15 * 1000, "changed2"),
            cap(16 * 1000, "unchanged2"),
            cap(17 * 1000, "unchanged3"),
        ],
    };

    assert_eq!(lyrics.offset, 0);

    // input is song time
    // in the first ten milliseconds, or at the first caption, the offset moves
    lyrics.adjust_offset(PlayerTimeUnit::from_secs(5), 1000);
    // "14" is song time: the offset of 1000 set above is added to it
    lyrics.adjust_offset(PlayerTimeUnit::from_secs(14), 1000);
    // there is no caption at 14 s, so the one at 13 s is the current one
    lyrics.adjust_offset(PlayerTimeUnit::from_secs(13), 2000);

    assert_eq!(lyrics.offset, 1000);

    assert_eq!(
        lyrics.captions.as_slice(),
        &[
            cap(5 * 1000, "changed offset"),
            cap(11 * 1000, "unchanged1"),
            cap(15 * 1000, "changed1"),
            cap(16 * 1000, "changed2"),
            cap(16 * 1000, "unchanged2"),
            cap(17 * 1000, "unchanged3"),
        ]
    );
}

#[test]
fn should_get_text() {
    let lyrics = Lyric {
        offset: 0,
        captions: vec![
            cap(1000, "text1"),
            cap(3 * 1000, "text2"),
            cap(4 * 1000, "text3"),
            cap(5 * 1000, "text4"),
        ],
    };

    assert_eq!(lyrics.get_text(PlayerTimeUnit::from_secs(0)).unwrap(), "text1");
    // the lookup runs two seconds ahead
    assert_eq!(
        lyrics.get_text(PlayerTimeUnit::from_secs(3 - 2)).unwrap(),
        "text2"
    );
    assert_eq!(
        lyrics.get_text(PlayerTimeUnit::from_secs(4 - 2)).unwrap(),
        "text3"
    );
    assert_eq!(
        lyrics.get_text(PlayerTimeUnit::from_secs(5 - 2)).unwrap(),
        "text4"
    );
}

#[test]
fn get_text_of_caption_at_zero() {
    let lyrics = Lyric::from_str("[00:00.00]x").unwrap();
    assert_eq!(lyrics.get_text(PlayerTimeUnit::from_secs(0)), Some("x"));
}

#[test]
fn get_text_without_captions_is_none() {
    let lyrics = Lyric { offset: 0, captions: vec![] };
    assert_eq!(lyrics.get_text(PlayerTimeUnit::from_secs(3)), None);
    assert_eq!(lyrics.get_index(3000), None);
}

#[test]
fn get_text_clamps_at_zero() {
    let lyrics = Lyric {
        offset: -10_000,
        captions: vec![cap(0, "first"), cap(3000, "second")],
    };
    assert_eq!(lyrics.get_text(PlayerTimeUnit::from_secs(1)), Some("first"));
}

#[test]
fn offset_of_two_seconds_shifts_lookup_by_two_seconds() {
    let captions = || {
        vec![
            cap(1000, "text1"),
            cap(3000, "text2"),
            cap(6000, "text3"),
            cap(9000, "text4"),
        ]
    };
    let plain = Lyric { offset: 0, captions: captions() };
    let shifted = Lyric { offset: -2000, captions: captions() };
    for t in 2..12u64 {
        assert_eq!(
            shifted.get_text(PlayerTimeUnit::from_secs(t)),
            plain.get_text(PlayerTimeUnit::from_secs(t - 2))
        );
    }
}

#[test]
fn get_index_takes_offset_and_clamps_at_zero() {
    let lyrics = Lyric {
        offset: 1000,
        captions: vec![cap(5000, "a"), cap(11000, "b"), cap(15000, "c")],
    };
    assert_eq!(lyrics.get_index(0), Some(0));
    assert_eq!(lyrics.get_index(10_000), Some(1));
    assert_eq!(lyrics.get_index(9_999), Some(0));
    assert_eq!(lyrics.get_index(14_000), Some(2));
    assert_eq!(lyrics.get_index(-16_000), Some(0));
    assert_eq!(lyrics.get_index(i64::MAX), Some(2));

    let early = Lyric {
        offset: -10_000,
        captions: vec![cap(0, "a"), cap(5000, "b")],
    };
    assert_eq!(early.get_index(3000), Some(0));
    assert_eq!(early.get_index(14_999), Some(0));
    assert_eq!(early.get_index(15_000), Some(1));
    assert_eq!(early.get_index(i64::MIN), Some(0));
}

#[test]
fn try_adjust_offset_refuses_what_does_not_fit() {
    let captions = || vec![cap(1000, "a"), cap(20_000, "b"), cap(i64::MAX - 5, "c")];
    let mut lyrics = Lyric { offset: i64::MAX - 1, captions: captions() };
    assert!(!lyrics.try_adjust_offset(PlayerTimeUnit::from_secs(0), 2));
    assert_eq!(lyrics, Lyric { offset: i64::MAX - 1, captions: captions() });
    assert!(lyrics.try_adjust_offset(PlayerTimeUnit::from_secs(0), 1));
    assert_eq!(lyrics.offset, i64::MAX);

    let mut lyrics = Lyric { offset: 0, captions: captions() };
    assert!(!lyrics.try_adjust_offset(PlayerTimeUnit::from_secs(u64::MAX), 1));
    let late = PlayerTimeUnit::from_millis((i64::MAX - 5) as u64);
    assert!(!lyrics.try_adjust_offset(late, 6));
    assert_eq!(lyrics, Lyric { offset: 0, captions: captions() });
    assert!(lyrics.try_adjust_offset(late, 5));
    assert_eq!(lyrics.captions[2], cap(i64::MAX, "c"));
    assert!(lyrics.try_adjust_offset(PlayerTimeUnit::from_secs(20), i64::MIN));
    assert_eq!(
        lyrics.captions.as_slice(),
        &[cap(0, "b"), cap(1000, "a"), cap(i64::MAX, "c")]
    );

    let mut empty = Lyric { offset: 7, captions: vec![] };
    assert!(empty.try_adjust_offset(PlayerTimeUnit::from_secs(3), i64::MAX));
    assert_eq!(empty, Lyric { offset: 7, captions: vec![] });
}

#[test]
fn adjust_offset_early_changes_offset_only() {
    let mut lyrics = Lyric {
        offset: 0,
        captions: vec![cap(5000, "a"), cap(9000, "b")],
    };
    lyrics.adjust_offset(PlayerTimeUnit::from_secs(5), 1000);
    assert_eq!(lyrics.offset, 1000);
    assert_eq!(lyrics.captions.as_slice(), &[cap(5000, "a"), cap(9000, "b")]);
}

#[test]
fn adjust_offset_later_moves_caption_and_sorts() {
    let mut lyrics = Lyric {
        offset: 0,
        captions: vec![cap(1000, "a"), cap(20_000, "b"), cap(21_000, "c")],
    };
    lyrics.adjust_offset(PlayerTimeUnit::from_secs(20), 5000);
    assert_eq!(lyrics.offset, 0);
    assert_eq!(
        lyrics.captions.as_slice(),
        &[cap(1000, "a"), cap(21_000, "c"), cap(25_000, "b")]
    );
    lyrics.adjust_offset(PlayerTimeUnit::from_secs(21), -50_000);
    assert_eq!(
        lyrics.captions.as_slice(),
        &[cap(0, "c"), cap(1000, "a"), cap(25_000, "b")]
    );
}

#[test]
fn merge_compares_with_the_kept_caption() {
    let mut lyrics = Lyric {
        offset: 0,
        captions: vec![cap(1000, "a"), cap(2500, "b"), cap(3500, "c")],
    };
    lyrics.merge_adjacent();
    assert_eq!(
        lyrics.captions.as_slice(),
        &[cap(1000, "a  b"), cap(3500, "c")]
    );
}

#[test]
fn parse_sorts_and_merges() {
    let lyrics = Lyric::from_str("[00:10.00]late\n[00:01.00]early\n[00:02.50]soon\r\n\n  [offset: -250 ]  \nplain\n").unwrap();
    assert_eq!(lyrics.offset, -250);
    assert_eq!(
        lyrics.captions.as_slice(),
        &[cap(1000, "early  soon"), cap(10_000, "late")]
    );
    for pair in lyrics.captions.windows(2) {
        assert!(pair[1].timestamp() - pair[0].timestamp() >= 2000);
    }
}

#[test]
fn parse_keeps_last_offset_and_skips_bad_ones() {
    let lyrics = Lyric::from_str("[offset:5]\n[offset:x]\n[offset:7\n[offset:9]").unwrap();
    assert_eq!(lyrics.offset, 9);
    assert_eq!(lyrics.captions.len(), 0);
}

#[test]
fn parse_time_forms() {
    assert_eq!(Caption::parse_time("00:12.00"), Some(12_000));
    assert_eq!(Caption::parse_time("00:12.305"), Some(12_305));
    assert_eq!(Caption::parse_time("01:02.99"), Some(62_990));
    assert_eq!(Caption::parse_time("01:02.100"), Some(62_100));
    assert_eq!(Caption::parse_time("+1:+2.+3"), Some(62_030));
    assert_eq!(Caption::parse_time("ti:title"), None);
    assert_eq!(Caption::parse_time("1.2:3"), None);
    assert_eq!(Caption::parse_time("1:2"), None);
    assert_eq!(Caption::parse_time(":2.3"), None);
    assert_eq!(Caption::parse_time("4294967296:0.0"), None);
    assert_eq!(Caption::parse_time("4294967295:0.0"), Some(4_294_967_295u64 * 60_000));
}

#[test]
fn parse_line_forms() {
    assert_eq!(Caption::parse_line("[00:01.50]text]more"), Some(cap(1500, "text]more")));
    assert_eq!(Caption::parse_line("x[00:01.50]"), Some(cap(1500, "")));
    assert_eq!(Caption::parse_line("[00:01.50"), None);
    assert_eq!(Caption::parse_line("no brackets"), None);
    let caption = Caption::parse_line("[02:03.04]hello").unwrap();
    assert_eq!(caption.timestamp(), 123_040);
    assert_eq!(caption.text(), "hello");
}

#[test]
fn time_lrc_leaves_hours_out() {
    assert_eq!(time_lrc(0), "00:00.00");
    assert_eq!(time_lrc(611_120), "10:11.12");
    assert_eq!(time_lrc(3_600_000 + 61_999), "01:01.99");
}

#[test]
fn format_then_parse_gives_the_lyric_back() {
    let lyrics = Lyric {
        offset: -42,
        captions: vec![cap(0, "a"), cap(2000, " b c"), cap(3_599_990, "[z]")],
    };
    let text = lyrics.as_lrc_text();
    assert_eq!(text, "[offset:-42]\n[00:00.00]a\n[00:02.00] b c\n[59:59.99][z]\n");
    assert_eq!(Lyric::from_str(&text).unwrap(), lyrics);
}

#[test]
fn caption_as_lrc_appends_one_line() {
    let mut out = String::from("x");
    cap(-5, "neg").as_lrc(&mut out);
    assert_eq!(out, "x[00:00.00]neg\n");
}

#[test]
fn offset_of_two_seconds_away_from_caption_starts() {
    let captions = || vec![cap(0, "first"), cap(20_000, "second"), cap(40_000, "third")];
    let plain = Lyric { offset: 0, captions: captions() };
    let delayed = Lyric { offset: 2000, captions: captions() };
    for t in [2u64, 5, 15, 20, 30, 35, 40, 60] {
        assert_eq!(
            delayed.get_text(PlayerTimeUnit::from_secs(t)),
            plain.get_text(PlayerTimeUnit::from_secs(t - 2))
        );
    }
}
