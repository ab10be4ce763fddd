//! Podcast feeds: the records kept of feeds and episodes, what is read from
//! a feed, where a download goes, and the messages that report on both.

use crate::text::{chars_of, lowercased, parse_i32, signed_of};
use std::fmt::Write;
use vstd::prelude::*;
use vstd::string::StringExecFns;

verus! {

/// How many columns a menu needs before the counts of unplayed and of all
/// episodes are shown behind a podcast's title.
pub const PODCAST_UNPLAYED_TOTALS_LENGTH: usize = 25;

/// How many columns a menu needs before an episode's duration is shown.
pub const EPISODE_DURATION_LENGTH: usize = 45;

/// How many columns a menu needs before an episode's date is shown.
pub const EPISODE_PUBDATE_LENGTH: usize = 60;

/// What podcasts and episodes offer to a menu that lists them.
pub trait Menuable {
    fn get_id(&self) -> i64;

    fn get_title(&self, length: usize) -> String;

    fn is_played(&self) -> bool;
}

/// A feed to fetch: its address, and the id and title where they are known.
#[derive(Debug, Clone, Eq, PartialEq)]
pub struct PodcastFeed {
    pub id: Option<i64>,
    pub url: String,
    pub title: Option<String>,
}

impl PodcastFeed {
    pub fn new(id: Option<i64>, url: String, title: Option<String>) -> (r: Self)
        ensures
            r == (PodcastFeed { id, url, title }),
    {
        Self { id, url, title }
    }
}

/// An episode as a feed describes it, before the catalog has given it an id.
/// Times are seconds since 1970, durations are seconds.
#[derive(Debug, Clone, Eq, PartialEq)]
pub struct EpisodeNoId {
    pub title: String,
    pub url: String,
    pub guid: String,
    pub description: String,
    pub pubdate: Option<i64>,
    pub duration: Option<i64>,
    pub image_url: Option<String>,
}

/// A podcast as its feed describes it, before the catalog has given it an
/// id.
#[derive(Debug, Clone, Eq, PartialEq)]
pub struct PodcastNoId {
    pub title: String,
    pub url: String,
    pub description: Option<String>,
    pub author: Option<String>,
    pub explicit: Option<bool>,
    pub last_checked: i64,
    pub episodes: Vec<EpisodeNoId>,
    pub image_url: Option<String>,
}

/// An episode of the catalog. `path` is set while the episode's file is on
/// disk.
#[derive(Debug, Clone, Eq, PartialEq)]
pub struct Episode {
    pub id: i64,
    pub pod_id: i64,
    pub title: String,
    pub url: String,
    pub guid: String,
    pub description: String,
    pub pubdate: Option<i64>,
    pub duration: Option<i64>,
    pub path: Option<String>,
    pub played: bool,
    pub image_url: Option<String>,
}

/// A podcast of the catalog, with its episodes.
#[derive(Debug, Clone, Eq, PartialEq)]
pub struct Podcast {
    pub id: i64,
    pub title: String,
    pub url: String,
    pub description: Option<String>,
    pub author: Option<String>,
    pub explicit: Option<bool>,
    pub last_checked: i64,
    pub episodes: Vec<Episode>,
    pub image_url: Option<String>,
}

/// What a download task knows of its episode. `file_path` is set once the
/// file has been created.
#[derive(Debug, Clone, Eq, PartialEq)]
pub struct EpData {
    pub id: i64,
    pub pod_id: i64,
    pub title: String,
    pub url: String,
    pub pubdate: Option<i64>,
    pub file_path: Option<String>,
}

/// The messages by which feed and download tasks report.
#[derive(Debug, Clone, Eq, PartialEq)]
pub enum PCMsg {
    FetchPodcastStart(String),
    NewData(PodcastNoId),
    SyncData(i64, PodcastNoId),
    Error(PodcastFeed),
    DLStart(EpData),
    DLComplete(EpData),
    DLResponseError(EpData),
    DLFileCreateError(EpData),
    DLFileWriteError(EpData),
    SearchSuccess(Vec<PodcastFeed>),
    SearchError(String),
}

/// The message that a feed task sends before it fetches `feed`.
pub fn feed_start_message(feed: &PodcastFeed) -> (r: PCMsg)
    ensures
        r == PCMsg::FetchPodcastStart(feed.url),
{
    PCMsg::FetchPodcastStart(feed.url.clone())
}

/// The message that a feed task sends when the fetch of `feed` has ended:
/// the data for a feed that the catalog knows, new data for one that it
/// does not know, and an error where nothing was fetched.
pub fn feed_result_message(feed: PodcastFeed, fetched: Option<PodcastNoId>) -> (r: PCMsg)
    ensures
        r == match fetched {
            Some(pod) => match feed.id {
                Some(id) => PCMsg::SyncData(id, pod),
                None => PCMsg::NewData(pod),
            },
            None => PCMsg::Error(feed),
        },
{
    match fetched {
        Some(pod) => match feed.id {
            Some(id) => PCMsg::SyncData(id, pod),
            None => PCMsg::NewData(pod),
        },
        None => PCMsg::Error(feed),
    }
}

/// What a task does after a request has failed: with more than one try
/// left it tries again with one try less, with its last try spent, or with
/// none to begin with, it gives up. A task that starts with `n` tries so
/// makes `n` requests at most, and one where `n` is zero.
pub fn tries_left_after_failure(tries_left: usize) -> (r: Option<usize>)
    ensures
        r == (if tries_left <= 1 {
            None::<usize>
        } else {
            Some((tries_left - 1) as usize)
        }),
{
    if tries_left <= 1 {
        None
    } else {
        Some(tries_left - 1)
    }
}

/// How a download ended.
#[derive(Debug, Clone, Eq, PartialEq)]
pub enum DownloadOutcome {
    /// No request was answered.
    NoResponse,
    /// The file could not be created.
    CreateFailed,
    /// The file at this path was created, but the body did not arrive.
    BodyFailed(String),
    /// The body could not be written to the file at this path.
    WriteFailed(String),
    /// The body was written to the file at this path.
    Written(String),
}

/// The message that a download task sends when the download of `ep` has
/// ended. From the creation of the file on the message carries its path.
pub fn download_result_message(ep: EpData, outcome: DownloadOutcome) -> (r: PCMsg)
    ensures
        r == match outcome {
            DownloadOutcome::NoResponse => PCMsg::DLResponseError(ep),
            DownloadOutcome::CreateFailed => PCMsg::DLFileCreateError(ep),
            DownloadOutcome::BodyFailed(path) => PCMsg::DLFileCreateError(
                EpData { file_path: Some(path), ..ep },
            ),
            DownloadOutcome::WriteFailed(path) => PCMsg::DLFileWriteError(
                EpData { file_path: Some(path), ..ep },
            ),
            DownloadOutcome::Written(path) => PCMsg::DLComplete(
                EpData { file_path: Some(path), ..ep },
            ),
        },
{
    let mut ep = ep;
    match outcome {
        DownloadOutcome::NoResponse => PCMsg::DLResponseError(ep),
        DownloadOutcome::CreateFailed => PCMsg::DLFileCreateError(ep),
        DownloadOutcome::BodyFailed(path) => {
            ep.file_path = Some(path);
            PCMsg::DLFileCreateError(ep)
        },
        DownloadOutcome::WriteFailed(path) => {
            ep.file_path = Some(path);
            PCMsg::DLFileWriteError(ep)
        },
        DownloadOutcome::Written(path) => {
            ep.file_path = Some(path);
            PCMsg::DLComplete(ep)
        },
    }
}

/// The messages that announce the start of the downloads of `episodes`, one
/// for each episode, in their order.
pub fn download_start_messages(episodes: &Vec<EpData>) -> (r: Vec<PCMsg>)
    ensures
        r@.len() == episodes@.len(),
        forall|i: int| 0 <= i < r@.len() ==> #[trigger] r@[i] == PCMsg::DLStart(episodes@[i]),
{
    let mut r: Vec<PCMsg> = Vec::new();
    let mut i: usize = 0;
    while i < episodes.len()
        invariant
            i <= episodes@.len(),
            r@.len() == i,
            forall|j: int| 0 <= j < i ==> #[trigger] r@[j] == PCMsg::DLStart(episodes@[j]),
        decreases episodes@.len() - i,
    {
        r.push(PCMsg::DLStart(clone_ep_data(&episodes[i])));
        i += 1;
    }
    r
}

/// A copy of `ep`.
pub fn clone_ep_data(ep: &EpData) -> (r: EpData)
    ensures
        r == *ep,
{
    EpData {
        id: ep.id,
        pod_id: ep.pod_id,
        title: ep.title.clone(),
        url: ep.url.clone(),
        pubdate: ep.pubdate,
        file_path: match &ep.file_path {
            Some(p) => Some(p.clone()),
            None => None,
        },
    }
}

/// The file extension for a download whose answer names the content type
/// `content_type`. An unknown or missing type gives `mp3`.
pub open spec fn extension_of(content_type: Option<Seq<char>>) -> Seq<char> {
    match content_type {
        Some(t) => if t == "audio/x-m4a"@ || t == "audio/mp4"@ {
            "m4a"@
        } else if t == "audio/x-matroska"@ {
            "mka"@
        } else if t == "audio/flac"@ {
            "flac"@
        } else if t == "video/quicktime"@ {
            "mov"@
        } else if t == "video/mp4"@ {
            "mp4"@
        } else if t == "video/x-m4v"@ {
            "m4v"@
        } else if t == "video/x-matroska"@ {
            "mkv"@
        } else if t == "video/webm"@ {
            "webm"@
        } else {
            "mp3"@
        },
        None => "mp3"@,
    }
}

/// Tells whether two strings hold the same characters.
pub fn same_text(a: &str, b: &str) -> (r: bool)
    ensures
        r == (a@ == b@),
{
    let x = String::from_str(a);
    let y = String::from_str(b);
    x == y
}

/// The file extension for a download whose answer names the content type
/// `content_type`.
pub fn extension_for(content_type: Option<&str>) -> (r: &'static str)
    ensures
        r@ == extension_of(
            match content_type {
                Some(t) => Some(t@),
                None => None,
            },
        ),
{
    match content_type {
        Some(t) => {
            if same_text(t, "audio/x-m4a") || same_text(t, "audio/mp4") {
                "m4a"
            } else if same_text(t, "audio/x-matroska") {
                "mka"
            } else if same_text(t, "audio/flac") {
                "flac"
            } else if same_text(t, "video/quicktime") {
                "mov"
            } else if same_text(t, "video/mp4") {
                "mp4"
            } else if same_text(t, "video/x-m4v") {
                "m4v"
            } else if same_text(t, "video/x-matroska") {
                "mkv"
            } else if same_text(t, "video/webm") {
                "webm"
            } else {
                "mp3"
            }
        },
        None => "mp3",
    }
}

/// The pattern of an episode's duration: hours, minutes and seconds, or
/// minutes and seconds, or seconds alone, with colons between them.
pub const DURATION_PATTERN: &'static str = r"(\d+)(?::(\d+))?(?::(\d+))?";

/// The groups of the first match of the regular expression `pattern` in
/// `text`, the whole match first; a group that took no part in the match is
/// `None`. `None` where nothing matches or `pattern` is no regular
/// expression.
pub uninterp spec fn regex_groups(pattern: Seq<char>, text: Seq<char>) -> Option<
    Seq<Option<Seq<char>>>,
>;

/// The characters of each group of `v`.
pub open spec fn group_views(v: Seq<Option<String>>) -> Seq<Option<Seq<char>>> {
    Seq::new(
        v.len(),
        |i: int|
            match v[i] {
                Some(s) => Some(s@),
                None => None,
            },
    )
}

/// `regex::Regex::new` compiles the pattern and `Regex::captures` returns
/// the capture groups of the leftmost match in the text, or `None` where
/// there is no match. The contract gives the groups a name: they depend on
/// the pattern and the text alone.
#[verifier::external_body]
fn match_groups(pattern: &str, text: &str) -> (r: Option<Vec<Option<String>>>)
    ensures
        match r {
            Some(v) => regex_groups(pattern@, text@) == Some(group_views(v@)),
            None => regex_groups(pattern@, text@) is None,
        },
{
    let re = regex::Regex::new(pattern).ok()?;
    let found = re.captures(text)?;
    Some(found.iter().map(|g| g.map(|m| m.as_str().to_string())).collect())
}

/// The groups of `groups` that took part in the match, in their order.
pub open spec fn present(groups: Seq<Option<Seq<char>>>) -> Seq<Seq<char>>
    decreases groups.len(),
{
    if groups.len() == 0 {
        Seq::empty()
    } else {
        match groups.last() {
            Some(g) => present(groups.drop_last()).push(g),
            None => present(groups.drop_last()),
        }
    }
}

/// The number that one part of a duration writes.
pub open spec fn part_value(s: Seq<char>) -> Option<int> {
    signed_of(s, i32::MIN as int, i32::MAX as int)
}

/// The seconds that the parts of a duration add up to: three parts are
/// hours, minutes and seconds, two are minutes and seconds, one is seconds.
/// `None` where there are no parts or more than three, where a part is no
/// number of 32 bits, or where the sum is none.
pub open spec fn duration_of_parts(parts: Seq<Seq<char>>) -> Option<int> {
    if parts.len() == 0 || parts.len() > 3 || exists|i: int|
        0 <= i < parts.len() && part_value(#[trigger] parts[i]) is None {
        None
    } else {
        let total = if parts.len() == 3 {
            part_value(parts[0])->0 * 3600 + part_value(parts[1])->0 * 60 + part_value(parts[2])->0
        } else if parts.len() == 2 {
            part_value(parts[0])->0 * 60 + part_value(parts[1])->0
        } else {
            part_value(parts[0])->0
        };
        if i32::MIN <= total <= i32::MAX {
            Some(total)
        } else {
            None
        }
    }
}

/// The seconds of the duration whose match has the groups `groups`: the
/// first group is the whole match and does not count.
pub open spec fn duration_of_groups(groups: Seq<Option<Seq<char>>>) -> Option<int> {
    if groups.len() == 0 {
        None
    } else {
        duration_of_parts(present(groups.skip(1)))
    }
}

/// The seconds of the duration whose match has the groups `groups`.
pub fn duration_from_groups(groups: &Vec<Option<String>>) -> (r: Option<i32>)
    ensures
        r == match duration_of_groups(group_views(groups@)) {
            Some(n) => Some(n as i32),
            None => None,
        },
{
    if groups.len() == 0 {
        return None;
    }
    let ghost all = group_views(groups@).skip(1);
    let mut values: Vec<i32> = Vec::new();
    let ghost mut parts: Seq<Seq<char>> = Seq::empty();
    let mut i: usize = 1;
    assert(all.take(0) =~= Seq::<Option<Seq<char>>>::empty());
    while i < groups.len()
        invariant
            1 <= i <= groups@.len(),
            all == group_views(groups@).skip(1),
            parts == present(all.take(i - 1)),
            values@.len() == parts.len(),
            values@.len() <= 3,
            forall|j: int|
                0 <= j < parts.len() ==> part_value(#[trigger] parts[j]) == Some(values@[j] as int),
        decreases groups@.len() - i,
    {
        let ghost before = all.take(i - 1);
        let ghost now = all.take(i as int);
        assert(now.drop_last() =~= before);
        assert(now.last() == group_views(groups@)[i as int]);
        match &groups[i] {
            Some(g) => {
                let chars = chars_of(g.as_str());
                proof {
                    parts = parts.push(g@);
                    lemma_present_prefix(all, i as int);
                }
                match parse_i32(chars.as_slice()) {
                    Some(v) => {
                        if values.len() == 3 {
                            assert(present(all).len() > 3);
                            return None;
                        }
                        values.push(v);
                    },
                    None => {
                        assert(part_value(present(all)[parts.len() - 1]) is None);
                        return None;
                    },
                }
            },
            None => {},
        }
        i += 1;
    }
    assert(all.take(groups@.len() - 1) =~= all);
    let total: i64 = if values.len() == 3 {
        values[0] as i64 * 3600 + values[1] as i64 * 60 + values[2] as i64
    } else if values.len() == 2 {
        values[0] as i64 * 60 + values[1] as i64
    } else if values.len() == 1 {
        values[0] as i64
    } else {
        return None;
    };
    if total < -0x8000_0000i64 || total > 0x7fff_ffffi64 {
        None
    } else {
        Some(total as i32)
    }
}

/// The groups present among the first `k` are the first of the groups
/// present among all.
pub proof fn lemma_present_prefix(groups: Seq<Option<Seq<char>>>, k: int)
    requires
        0 <= k <= groups.len(),
    ensures
        present(groups.take(k)).len() <= present(groups).len(),
        forall|j: int|
            0 <= j < present(groups.take(k)).len() ==> present(groups.take(k))[j] == present(
                groups,
            )[j],
    decreases groups.len(),
{
    if k < groups.len() {
        lemma_present_prefix(groups.drop_last(), k);
        assert(groups.drop_last().take(k) =~= groups.take(k));
    } else {
        assert(groups.take(k) =~= groups);
    }
}

/// The duration in seconds that `text` writes: that of the first stretch of
/// `text` that has the pattern of a duration.
pub open spec fn duration_of(text: Seq<char>) -> Option<int> {
    match regex_groups(DURATION_PATTERN@, text) {
        Some(groups) => duration_of_groups(groups),
        None => None,
    }
}

/// The duration in seconds that `duration` writes as `HH:MM:SS`, `MM:SS` or
/// `SS`, or `None` where it writes none.
pub fn duration_to_int(duration: Option<&str>) -> (r: Option<i32>)
    ensures
        r == match duration {
            Some(d) => match duration_of(d@) {
                Some(n) => Some(n as i32),
                None => None,
            },
            None => None,
        },
{
    match duration {
        Some(d) => match match_groups(DURATION_PATTERN, d) {
            Some(groups) => duration_from_groups(&groups),
            None => None,
        },
        None => None,
    }
}

/// What a feed's `explicit` tag says: `yes`, `explicit` and `true` say yes,
/// `no`, `clean` and `false` say no, in upper or lower case; anything else
/// says nothing.
pub open spec fn explicit_of(tag: Seq<char>) -> Option<bool> {
    let t = lowercased(tag);
    if t == "yes"@ || t == "explicit"@ || t == "true"@ {
        Some(true)
    } else if t == "no"@ || t == "clean"@ || t == "false"@ {
        Some(false)
    } else {
        None
    }
}

/// What a feed's `explicit` tag says.
pub fn explicit_flag(tag: &str) -> (r: Option<bool>)
    ensures
        r == explicit_of(tag@),
{
    let lower = tag.to_lowercase();
    let t = lower.as_str();
    if same_text(t, "yes") || same_text(t, "explicit") || same_text(t, "true") {
        Some(true)
    } else if same_text(t, "no") || same_text(t, "clean") || same_text(t, "false") {
        Some(false)
    } else {
        None
    }
}

/// The name that `sanitize_filename` makes of `name` with the given
/// options.
pub uninterp spec fn sanitized(
    name: Seq<char>,
    windows: bool,
    truncate: bool,
    replacement: Seq<char>,
) -> Seq<char>;

/// `sanitize_filename::sanitize_with_options` replaces what a file name may
/// not hold by `replacement` and, with `truncate`, cuts the name to 255
/// bytes. The contract gives the result a name: it depends on the
/// arguments alone.
#[verifier::external_body]
pub(crate) fn sanitize(name: &str, windows: bool, truncate: bool, replacement: &str) -> (r: String)
    ensures
        r@ == sanitized(name@, windows, truncate, replacement@),
{
    let options = sanitize_filename::Options { windows, truncate, replacement };
    sanitize_filename::sanitize_with_options(name, options)
}

/// The time `secs` seconds after the start of 1970, in UTC, written after
/// the `strftime` pattern `pattern`; `None` where chrono has no such time or
/// cannot write it after that pattern.
pub uninterp spec fn utc_formatted(secs: int, pattern: Seq<char>) -> Option<Seq<char>>;

/// `chrono::DateTime::from_timestamp` gives the UTC time of a Unix
/// timestamp, or `None` out of its range, and `DateTime::format` writes it
/// after a pattern. The contract gives the text a name: it depends on the
/// seconds and the pattern alone.
#[verifier::external_body]
fn format_utc(secs: i64, pattern: &str) -> (r: Option<String>)
    ensures
        match r {
            Some(s) => utc_formatted(secs as int, pattern@) == Some(s@),
            None => utc_formatted(secs as int, pattern@) is None,
        },
{
    let date = chrono::DateTime::from_timestamp(secs, 0)?;
    let mut out = String::new();
    write!(out, "{}", date.format(pattern)).ok()?;
    Some(out)
}

/// `std::time::SystemTime`, a reading of the system's clock. Nothing is
/// known of what it holds.
#[verifier::external_type_specification]
#[verifier::external_body]
pub struct ExSystemTime(std::time::SystemTime);

/// `SystemTime::now` reads the system's clock. Nothing is claimed of the
/// reading.
#[verifier::external_body]
fn read_clock() -> std::time::SystemTime {
    std::time::SystemTime::now()
}

/// `SystemTime::duration_since` with `UNIX_EPOCH` gives the span from the
/// start of 1970 to the time, or, as an error, the span from the time to
/// the start of 1970 where the time is earlier. The result is that span in
/// whole seconds, `Ok` after 1970 and `Err` before it. Nothing is claimed
/// of the number.
#[verifier::external_body]
fn since_1970(time: &std::time::SystemTime) -> Result<u64, u64> {
    match time.duration_since(std::time::UNIX_EPOCH) {
        Ok(span) => Ok(span.as_secs()),
        Err(early) => Err(early.duration().as_secs()),
    }
}

/// The seconds since the start of 1970 of a time that lies `since` seconds
/// after it (`Ok`) or before it (`Err`), as far as 64 bits hold them.
pub fn unix_seconds(since: Result<u64, u64>) -> (r: i64)
    ensures
        r == match since {
            Ok(after) => if after > i64::MAX {
                i64::MAX as int
            } else {
                after as int
            },
            Err(before) => if before > i64::MAX {
                -(i64::MAX as int)
            } else {
                -(before as int)
            },
        },
{
    match since {
        Ok(after) => if after > 0x7fff_ffff_ffff_ffffu64 {
            i64::MAX
        } else {
            after as i64
        },
        Err(before) => if before > 0x7fff_ffff_ffff_ffffu64 {
            -i64::MAX
        } else {
            -(before as i64)
        },
    }
}

/// The present time in seconds since the start of 1970.
fn now_seconds() -> i64 {
    let time = read_clock();
    unix_seconds(since_1970(&time))
}

/// The seconds since the start of 1970 of the date that `date` writes in
/// the manner of RFC 2822, or `None` where it writes none.
pub uninterp spec fn rfc2822_seconds(date: Seq<char>) -> Option<int>;

/// `rfc822_sanitizer::parse_from_rfc2822_with_fallback` reads a date in
/// the manner of RFC 2822, and mends some common faults before it gives
/// up. The contract gives the date's Unix timestamp a name: it depends on
/// the text alone.
#[verifier::external_body]
fn parse_pubdate(date: &str) -> (r: Option<i64>)
    ensures
        match r {
            Some(n) => rfc2822_seconds(date@) == Some(n as int),
            None => rfc2822_seconds(date@) is None,
        },
{
    rfc822_sanitizer::parse_from_rfc2822_with_fallback(date).ok().map(|d| d.timestamp())
}

/// The pattern of the date in the name of a downloaded file.
pub const STAMP_PATTERN: &'static str = "%Y%m%d_%H%M%S";

/// The name of the file for an episode with the title `title`, published at
/// `pubdate`, whose content has the extension `ext`: the title made fit for
/// a file name, then `_` and the date where there is one that can be
/// written, then a dot and the extension.
pub open spec fn file_name_of(title: Seq<char>, pubdate: Option<i64>, ext: Seq<char>) -> Seq<
    char,
> {
    let base = sanitized(title, true, true, ""@);
    let stamped = match pubdate {
        Some(t) => match utc_formatted(t as int, STAMP_PATTERN@) {
            Some(stamp) => base + seq!['_'] + stamp,
            None => base,
        },
        None => base,
    };
    stamped + seq!['.'] + ext
}

/// The name of the file for an episode.
pub fn episode_file_name(title: &str, pubdate: Option<i64>, ext: &str) -> (r: String)
    ensures
        r@ == file_name_of(title@, pubdate, ext@),
{
    let mut name = sanitize(title, true, true, "");
    match pubdate {
        Some(t) => match format_utc(t, STAMP_PATTERN) {
            Some(stamp) => {
                name.push('_');
                name.append(stamp.as_str());
            },
            None => {},
        },
        None => {},
    }
    name.push('.');
    name.append(ext);
    assert(name@ =~= file_name_of(title@, pubdate, ext@));
    name
}

/// One outline of an OPML document, as far as feeds are read from it.
#[derive(Debug, Clone, Eq, PartialEq)]
pub struct OutlineData {
    pub text: String,
    pub title: Option<String>,
    pub xml_url: Option<String>,
}

/// What an outline holds: the characters of its text, title and address.
pub struct OutlineView {
    pub text: Seq<char>,
    pub title: Option<Seq<char>>,
    pub xml_url: Option<Seq<char>>,
}

/// The characters of an optional text.
pub open spec fn text_view(s: Option<String>) -> Option<Seq<char>> {
    match s {
        Some(t) => Some(t@),
        None => None,
    }
}

impl View for OutlineData {
    type V = OutlineView;

    open spec fn view(&self) -> OutlineView {
        OutlineView {
            text: self.text@,
            title: text_view(self.title),
            xml_url: text_view(self.xml_url),
        }
    }
}

/// What each of the outlines `v` holds.
pub open spec fn outline_views(v: Seq<OutlineData>) -> Seq<OutlineView> {
    Seq::new(v.len(), |i: int| v[i]@)
}

/// What a feed to fetch holds: its id, and the characters of its address
/// and title.
pub struct FeedView {
    pub id: Option<i64>,
    pub url: Seq<char>,
    pub title: Option<Seq<char>>,
}

impl View for PodcastFeed {
    type V = FeedView;

    open spec fn view(&self) -> FeedView {
        FeedView { id: self.id, url: self.url@, title: text_view(self.title) }
    }
}

/// What each of the feeds `v` holds.
pub open spec fn feed_views(v: Seq<PodcastFeed>) -> Seq<FeedView> {
    Seq::new(v.len(), |i: int| v[i]@)
}

/// The outlines directly under the body of the OPML document `xml`, or
/// `None` where `xml` is no OPML document of version 1.0, 1.1 or 2.0 with
/// an outline.
pub uninterp spec fn opml_outlines(xml: Seq<char>) -> Option<Seq<OutlineView>>;

/// `opml::Error`, the error of the OPML reader. Nothing is known of what
/// it holds.
#[verifier::external_type_specification]
#[verifier::external_body]
pub struct ExOpmlError(opml::Error);

/// `opml::OPML::from_str` reads an OPML document and fails on one that is
/// malformed, of another version than 1.0, 1.1 or 2.0, or without an
/// outline. The contract gives the outlines of the body a name: they depend
/// on the text alone.
#[verifier::external_body]
fn read_outlines(xml: &str) -> (r: Result<Vec<OutlineData>, opml::Error>)
    ensures
        match r {
            Ok(v) => opml_outlines(xml@) == Some(outline_views(v@)),
            Err(_) => opml_outlines(xml@) is None,
        },
{
    let doc = opml::OPML::from_str(xml)?;
    let outlines = doc.body.outlines.into_iter();
    Ok(outlines.map(|o| OutlineData { text: o.text, title: o.title, xml_url: o.xml_url }).collect())
}

/// Why a list of feeds could not be read.
#[derive(Debug, Clone, Copy, Eq, PartialEq)]
pub enum OpmlError {
    /// The text is no OPML document that can be used.
    Malformed,
}

impl OpmlError {
    /// The error in words.
    pub fn to_string(&self) -> (r: String)
        ensures
            r@ == "Could not properly parse OPML file -- file may be formatted improperly or corrupted."@,
    {
        String::from_str(
            "Could not properly parse OPML file -- file may be formatted improperly or corrupted.",
        )
    }
}

/// The title under which the feed of the outline `o` is listed: its title
/// where that is not empty, else its text where that is not empty.
pub open spec fn outline_title(o: OutlineView) -> Option<Seq<char>> {
    if o.title is Some && o.title->0.len() > 0 {
        o.title
    } else if o.text.len() > 0 {
        Some(o.text)
    } else {
        None
    }
}

/// The feeds that `outlines` name: one for each outline with an address, in
/// their order.
pub open spec fn feeds_of(outlines: Seq<OutlineView>) -> Seq<FeedView>
    decreases outlines.len(),
{
    if outlines.len() == 0 {
        Seq::empty()
    } else {
        let o = outlines.last();
        match o.xml_url {
            Some(url) => feeds_of(outlines.drop_last()).push(
                FeedView { id: None, url, title: outline_title(o) },
            ),
            None => feeds_of(outlines.drop_last()),
        }
    }
}

/// A copy of `s`.
fn clone_text(s: &Option<String>) -> (r: Option<String>)
    ensures
        r == *s,
{
    match s {
        Some(t) => Some(t.clone()),
        None => None,
    }
}

/// The feeds that `outlines` name.
pub fn feeds_from_outlines(outlines: &Vec<OutlineData>) -> (r: Vec<PodcastFeed>)
    ensures
        feed_views(r@) == feeds_of(outline_views(outlines@)),
{
    let ghost all = outline_views(outlines@);
    let mut feeds: Vec<PodcastFeed> = Vec::new();
    let mut i: usize = 0;
    assert(all.take(0) =~= Seq::<OutlineView>::empty());
    assert(feed_views(feeds@) =~= feeds_of(all.take(0)));
    while i < outlines.len()
        invariant
            i <= outlines@.len(),
            all == outline_views(outlines@),
            feed_views(feeds@) == feeds_of(all.take(i as int)),
        decreases outlines@.len() - i,
    {
        assert(all.take(i + 1).drop_last() =~= all.take(i as int));
        assert(all.take(i + 1).last() == outlines@[i as int]@);
        let ghost before = feed_views(feeds@);
        let o = &outlines[i];
        match &o.xml_url {
            Some(url) => {
                let title = match &o.title {
                    Some(t) => {
                        if !t.as_str().is_empty() {
                            Some(t.clone())
                        } else if !o.text.as_str().is_empty() {
                            Some(o.text.clone())
                        } else {
                            None
                        }
                    },
                    None => {
                        if !o.text.as_str().is_empty() {
                            Some(o.text.clone())
                        } else {
                            None
                        }
                    },
                };
                feeds.push(PodcastFeed::new(None, url.clone(), title));
                assert(feed_views(feeds@) =~= before.push(
                    FeedView { id: None, url: url@, title: outline_title(o@) },
                ));
            },
            None => {},
        }
        i += 1;
    }
    assert(all.take(outlines@.len() as int) =~= all);
    feeds
}

/// The feeds that the OPML document `xml` lists, or an error where `xml` is
/// no such document.
pub fn import_opml_feeds(xml: &str) -> (r: Result<Vec<PodcastFeed>, OpmlError>)
    ensures
        match opml_outlines(xml@) {
            Some(outlines) => r is Ok && feed_views(r->Ok_0@) == feeds_of(outlines),
            None => r == Err::<Vec<PodcastFeed>, OpmlError>(OpmlError::Malformed),
        },
{
    match read_outlines(xml) {
        Ok(outlines) => Ok(feeds_from_outlines(&outlines)),
        Err(_) => Err(OpmlError::Malformed),
    }
}

/// Whether one of the podcasts `old` has the address `url`.
pub open spec fn known_url(old: Seq<Podcast>, url: Seq<char>) -> bool {
    exists|i: int| 0 <= i < old.len() && (#[trigger] old[i]).url@ == url
}

/// The feeds of `list` whose address none of the podcasts `old` has, in
/// their order.
pub open spec fn new_feeds_of(list: Seq<PodcastFeed>, old: Seq<Podcast>) -> Seq<PodcastFeed>
    decreases list.len(),
{
    if list.len() == 0 {
        Seq::empty()
    } else if known_url(old, list.last().url@) {
        new_feeds_of(list.drop_last(), old)
    } else {
        new_feeds_of(list.drop_last(), old).push(list.last())
    }
}

/// A copy of `feed`.
pub fn clone_feed(feed: &PodcastFeed) -> (r: PodcastFeed)
    ensures
        r == *feed,
{
    PodcastFeed { id: feed.id, url: feed.url.clone(), title: clone_text(&feed.title) }
}

/// Tells whether one of the podcasts `old` has the address `url`.
pub fn has_url(old: &Vec<Podcast>, url: &String) -> (r: bool)
    ensures
        r == known_url(old@, url@),
{
    let mut i: usize = 0;
    while i < old.len()
        invariant
            i <= old@.len(),
            forall|j: int| 0 <= j < i ==> (#[trigger] old@[j]).url@ != url@,
        decreases old@.len() - i,
    {
        if old[i].url == *url {
            return true;
        }
        i += 1;
    }
    false
}

/// The feeds of `list` that are not among the podcasts `old` yet.
pub fn new_feeds(list: &Vec<PodcastFeed>, old: &Vec<Podcast>) -> (r: Vec<PodcastFeed>)
    ensures
        r@ == new_feeds_of(list@, old@),
        forall|i: int| 0 <= i < r@.len() ==> !known_url(old@, (#[trigger] r@[i]).url@),
{
    let mut out: Vec<PodcastFeed> = Vec::new();
    let mut i: usize = 0;
    assert(list@.take(0) =~= Seq::<PodcastFeed>::empty());
    while i < list.len()
        invariant
            i <= list@.len(),
            out@ == new_feeds_of(list@.take(i as int), old@),
            forall|j: int| 0 <= j < out@.len() ==> !known_url(old@, (#[trigger] out@[j]).url@),
        decreases list@.len() - i,
    {
        assert(list@.take(i + 1).drop_last() =~= list@.take(i as int));
        assert(list@.take(i + 1).last() == list@[i as int]);
        if !has_url(old, &list[i].url) {
            out.push(clone_feed(&list[i]));
        }
        i += 1;
    }
    assert(list@.take(list@.len() as int) =~= list@);
    out
}

/// How far an import of feeds has come: how many feeds were asked for, how
/// many of them have been answered, and whether anything failed.
#[derive(Debug, Clone, Copy, Eq, PartialEq)]
pub struct ImportProgress {
    pub expected: usize,
    pub received: usize,
    pub failure: bool,
}

/// What reaches an import while it waits for its feeds.
#[derive(Debug, Clone, Copy, Eq, PartialEq)]
pub enum ImportEvent {
    /// A new podcast arrived; `stored` tells whether the catalog took it.
    NewData { stored: bool },
    /// A feed could not be fetched.
    Error,
    /// Data for a known podcast arrived.
    SyncData,
    /// Any other message.
    Other,
}

impl ImportProgress {
    /// The start of an import of `expected` feeds.
    pub fn new(expected: usize) -> (r: Self)
        ensures
            r == (ImportProgress { expected, received: 0, failure: false }),
    {
        ImportProgress { expected, received: 0, failure: false }
    }

    /// Whether every feed has been answered.
    pub open spec fn done(self) -> bool {
        self.received >= self.expected
    }

    /// Tells whether every feed has been answered.
    pub fn is_done(&self) -> (r: bool)
        ensures
            r == self.done(),
    {
        self.received >= self.expected
    }

    /// Takes note of `event` and tells whether every feed has been answered
    /// now. Each answer counts once; a podcast that was not stored and a feed
    /// that was not fetched mark the import as failed.
    pub fn on_event(&mut self, event: ImportEvent) -> (r: bool)
        requires
            !old(self).done(),
        ensures
            final(self).expected == old(self).expected,
            final(self).received == old(self).received + (if event is Other {
                0int
            } else {
                1int
            }),
            final(self).failure == (old(self).failure || event is Error || event
                == ImportEvent::NewData { stored: false }),
            r == final(self).done(),
    {
        match event {
            ImportEvent::NewData { stored } => {
                self.received = self.received + 1;
                if !stored {
                    self.failure = true;
                }
            },
            ImportEvent::Error => {
                self.received = self.received + 1;
                self.failure = true;
            },
            ImportEvent::SyncData => {
                self.received = self.received + 1;
            },
            ImportEvent::Other => {},
        }
        self.received >= self.expected
    }
}

/// One outline of a list of feeds to be written as OPML.
#[derive(Debug, Clone, Eq, PartialEq)]
pub struct ExportOutline {
    pub text: String,
    pub kind: String,
    pub xml_url: String,
    pub title: String,
}

/// A list of feeds to be written as OPML 2.0.
#[derive(Debug, Clone, Eq, PartialEq)]
pub struct OpmlDocument {
    pub title: String,
    pub date_created: String,
    pub outlines: Vec<ExportOutline>,
}

/// Whether `o` is the outline that stands for the podcast `pod`.
pub open spec fn is_outline_of(o: ExportOutline, pod: Podcast) -> bool {
    &&& o.text == pod.title
    &&& o.title == pod.title
    &&& o.xml_url == pod.url
    &&& o.kind@ == "rss"@
}

/// The list of the feeds of `podcasts`, made at the date `date_created`:
/// one outline of the type `rss` for each podcast, in their order.
pub fn export_opml_feeds(podcasts: &Vec<Podcast>, date_created: String) -> (r: OpmlDocument)
    ensures
        r.title@ == "Termusic Podcast Feeds"@,
        r.date_created == date_created,
        r.outlines@.len() == podcasts@.len(),
        forall|i: int|
            0 <= i < podcasts@.len() ==> is_outline_of(#[trigger] r.outlines@[i], podcasts@[i]),
{
    let mut outlines: Vec<ExportOutline> = Vec::new();
    let mut i: usize = 0;
    while i < podcasts.len()
        invariant
            i <= podcasts@.len(),
            outlines@.len() == i,
            forall|j: int| 0 <= j < i ==> is_outline_of(#[trigger] outlines@[j], podcasts@[j]),
        decreases podcasts@.len() - i,
    {
        let pod = &podcasts[i];
        outlines.push(
            ExportOutline {
                text: pod.title.clone(),
                kind: String::from_str("rss"),
                xml_url: pod.url.clone(),
                title: pod.title.clone(),
            },
        );
        i += 1;
    }
    OpmlDocument { title: String::from_str("Termusic Podcast Feeds"), date_created, outlines }
}

/// What the iTunes tags of a feed say of the podcast.
#[derive(Debug, Clone, Eq, PartialEq)]
pub struct ItunesChannel {
    pub author: Option<String>,
    pub explicit: Option<String>,
    pub image: Option<String>,
}

/// What the iTunes tags of a feed say of one episode.
#[derive(Debug, Clone, Eq, PartialEq)]
pub struct ItunesItem {
    pub duration: Option<String>,
    pub image: Option<String>,
}

/// One item of a feed, as far as an episode is made from it.
#[derive(Debug, Clone, Eq, PartialEq)]
pub struct ItemData {
    pub title: Option<String>,
    pub enclosure_url: Option<String>,
    pub guid: Option<String>,
    pub description: Option<String>,
    pub pub_date: Option<String>,
    pub itunes: Option<ItunesItem>,
}

/// A feed, as far as a podcast is made from it.
#[derive(Debug, Clone, Eq, PartialEq)]
pub struct ChannelData {
    pub title: String,
    pub description: String,
    pub itunes: Option<ItunesChannel>,
    pub items: Vec<ItemData>,
}

/// What the iTunes tags of a feed say of the podcast, in characters.
pub struct ItunesChannelView {
    pub author: Option<Seq<char>>,
    pub explicit: Option<Seq<char>>,
    pub image: Option<Seq<char>>,
}

/// What the iTunes tags of a feed say of one episode, in characters.
pub struct ItunesItemView {
    pub duration: Option<Seq<char>>,
    pub image: Option<Seq<char>>,
}

/// What an item of a feed holds, in characters.
pub struct ItemView {
    pub title: Option<Seq<char>>,
    pub enclosure_url: Option<Seq<char>>,
    pub guid: Option<Seq<char>>,
    pub description: Option<Seq<char>>,
    pub pub_date: Option<Seq<char>>,
    pub itunes: Option<ItunesItemView>,
}

/// What a feed holds, in characters.
pub struct ChannelView {
    pub title: Seq<char>,
    pub description: Seq<char>,
    pub itunes: Option<ItunesChannelView>,
    pub items: Seq<ItemView>,
}

impl View for ItunesChannel {
    type V = ItunesChannelView;

    open spec fn view(&self) -> ItunesChannelView {
        ItunesChannelView {
            author: text_view(self.author),
            explicit: text_view(self.explicit),
            image: text_view(self.image),
        }
    }
}

impl View for ItunesItem {
    type V = ItunesItemView;

    open spec fn view(&self) -> ItunesItemView {
        ItunesItemView { duration: text_view(self.duration), image: text_view(self.image) }
    }
}

impl View for ItemData {
    type V = ItemView;

    open spec fn view(&self) -> ItemView {
        ItemView {
            title: text_view(self.title),
            enclosure_url: text_view(self.enclosure_url),
            guid: text_view(self.guid),
            description: text_view(self.description),
            pub_date: text_view(self.pub_date),
            itunes: match self.itunes {
                Some(x) => Some(x@),
                None => None,
            },
        }
    }
}

impl View for ChannelData {
    type V = ChannelView;

    open spec fn view(&self) -> ChannelView {
        ChannelView {
            title: self.title@,
            description: self.description@,
            itunes: match self.itunes {
                Some(x) => Some(x@),
                None => None,
            },
            items: Seq::new(self.items@.len(), |i: int| self.items@[i]@),
        }
    }
}

/// The feed that the bytes `bytes` hold as RSS, or `None` where they hold
/// none.
pub uninterp spec fn rss_channel(bytes: Seq<u8>) -> Option<ChannelView>;

/// `rss::Error`, the error of the feed reader. Nothing is known of what it
/// holds.
#[verifier::external_type_specification]
#[verifier::external_body]
pub struct ExRssError(rss::Error);

/// `rss::Channel::read_from` reads an RSS feed from bytes and fails on what
/// is no feed. The contract gives the channel's title, description, iTunes
/// tags and items a name: they depend on the bytes alone.
#[verifier::external_body]
fn read_channel(bytes: &[u8]) -> (r: Result<ChannelData, rss::Error>)
    ensures
        match r {
            Ok(c) => rss_channel(bytes@) == Some(c@),
            Err(_) => rss_channel(bytes@) is None,
        },
{
    let c = rss::Channel::read_from(bytes)?;
    let items = c.items.into_iter().map(|i| ItemData {
        title: i.title,
        enclosure_url: i.enclosure.map(|e| e.url),
        guid: i.guid.map(|g| g.value),
        description: i.description,
        pub_date: i.pub_date,
        itunes: i.itunes_ext.map(|x| ItunesItem { duration: x.duration, image: x.image }),
    }).collect();
    let itunes = c.itunes_ext;
    let itunes = itunes.map(|x| ItunesChannel { author: x.author, explicit: x.explicit, image: x.image });
    Ok(ChannelData { title: c.title, description: c.description, itunes, items })
}

/// The characters `s`, or none where there is no text.
pub open spec fn text_or_empty(s: Option<Seq<char>>) -> Seq<char> {
    match s {
        Some(t) => t,
        None => Seq::empty(),
    }
}

/// Whether `e` is the episode that the feed item `item` describes. A
/// missing title, address, guid or description is empty.
pub open spec fn is_episode_of(e: EpisodeNoId, item: ItemView) -> bool {
    &&& e.title@ == text_or_empty(item.title)
    &&& e.url@ == text_or_empty(item.enclosure_url)
    &&& e.guid@ == text_or_empty(item.guid)
    &&& e.description@ == text_or_empty(item.description)
    &&& e.pubdate == match item.pub_date {
        Some(d) => match rfc2822_seconds(d) {
            Some(n) => Some(n as i64),
            None => None,
        },
        None => None,
    }
    &&& e.duration == match item.itunes {
        Some(x) => match x.duration {
            Some(d) => match duration_of(d) {
                Some(n) => Some(n as i64),
                None => None,
            },
            None => None,
        },
        None => None,
    }
    &&& text_view(e.image_url) == match item.itunes {
        Some(x) => x.image,
        None => None,
    }
}

/// The text of `s`, or an empty text where there is none.
fn text_or_default(s: &Option<String>) -> (r: String)
    ensures
        r@ == text_or_empty(text_view(*s)),
{
    match s {
        Some(t) => t.clone(),
        None => String::new(),
    }
}

/// The episode that the feed item `item` describes.
pub fn parse_episode_data(item: &ItemData) -> (r: EpisodeNoId)
    ensures
        is_episode_of(r, item@),
{
    let pubdate = match &item.pub_date {
        Some(d) => parse_pubdate(d.as_str()),
        None => None,
    };
    let mut duration: Option<i64> = None;
    let mut image_url: Option<String> = None;
    match &item.itunes {
        Some(x) => {
            let text = match &x.duration {
                Some(d) => Some(d.as_str()),
                None => None,
            };
            duration = match duration_to_int(text) {
                Some(n) => Some(n as i64),
                None => None,
            };
            image_url = clone_text(&x.image);
        },
        None => {},
    }
    EpisodeNoId {
        title: text_or_default(&item.title),
        url: text_or_default(&item.enclosure_url),
        guid: text_or_default(&item.guid),
        description: text_or_default(&item.description),
        pubdate,
        duration,
        image_url,
    }
}

/// Whether `p` is the podcast that the feed `channel`, fetched from `url`
/// at the time `last_checked`, describes.
pub open spec fn is_podcast_of(
    p: PodcastNoId,
    channel: ChannelView,
    url: Seq<char>,
    last_checked: i64,
) -> bool {
    &&& p.title@ == channel.title
    &&& p.url@ == url
    &&& text_view(p.description) == Some(channel.description)
    &&& p.last_checked == last_checked
    &&& text_view(p.author) == match channel.itunes {
        Some(x) => x.author,
        None => None,
    }
    &&& p.explicit == match channel.itunes {
        Some(x) => match x.explicit {
            Some(tag) => explicit_of(tag),
            None => None,
        },
        None => None,
    }
    &&& text_view(p.image_url) == match channel.itunes {
        Some(x) => x.image,
        None => None,
    }
    &&& p.episodes@.len() == channel.items.len()
    &&& forall|i: int|
        0 <= i < channel.items.len() ==> is_episode_of(#[trigger] p.episodes@[i], channel.items[i])
}

/// The podcast that the feed `channel`, fetched from `url` at the time
/// `last_checked`, describes, with one episode for each item.
pub fn parse_feed_data(channel: &ChannelData, url: &str, last_checked: i64) -> (r: PodcastNoId)
    ensures
        is_podcast_of(r, channel@, url@, last_checked),
{
    let mut author: Option<String> = None;
    let mut explicit: Option<bool> = None;
    let mut image_url: Option<String> = None;
    match &channel.itunes {
        Some(x) => {
            author = clone_text(&x.author);
            explicit = match &x.explicit {
                Some(tag) => explicit_flag(tag.as_str()),
                None => None,
            };
            image_url = clone_text(&x.image);
        },
        None => {},
    }
    let mut episodes: Vec<EpisodeNoId> = Vec::new();
    let mut i: usize = 0;
    while i < channel.items.len()
        invariant
            i <= channel.items@.len(),
            episodes@.len() == i,
            forall|j: int|
                0 <= j < i ==> is_episode_of(#[trigger] episodes@[j], channel.items@[j]@),
        decreases channel.items@.len() - i,
    {
        episodes.push(parse_episode_data(&channel.items[i]));
        i += 1;
    }
    PodcastNoId {
        title: channel.title.clone(),
        url: String::from_str(url),
        description: Some(channel.description.clone()),
        author,
        explicit,
        last_checked,
        episodes,
        image_url,
    }
}

/// The podcast that the bytes `bytes`, fetched from `url`, describe as an
/// RSS feed, checked now; `None` where the bytes hold no feed.
pub fn read_feed(bytes: &[u8], url: &str) -> (r: Option<PodcastNoId>)
    ensures
        match rss_channel(bytes@) {
            Some(channel) => r is Some && is_podcast_of(r->0, channel, url@, r->0.last_checked),
            None => r is None,
        },
{
    match read_channel(bytes) {
        Ok(channel) => Some(parse_feed_data(&channel, url, now_seconds())),
        Err(_) => None,
    }
}

/// The text `s` with every byte that is no letter and no digit of ASCII
/// written as a percent sign and two hexadecimal digits.
pub uninterp spec fn percent_encoded(s: Seq<char>) -> Seq<char>;

/// `percent_encoding::utf8_percent_encode` with the set `NON_ALPHANUMERIC`
/// writes every byte but the letters and digits of ASCII as a percent sign
/// and two hexadecimal digits. The contract gives the result a name: it
/// depends on the text alone.
#[verifier::external_body]
fn percent_encode(s: &str) -> (r: String)
    ensures
        r@ == percent_encoded(s@),
{
    percent_encoding::utf8_percent_encode(s, percent_encoding::NON_ALPHANUMERIC).to_string()
}

/// The address at which iTunes is asked for podcasts, without the term.
pub const ITUNES_SEARCH: &'static str =
    "https://itunes.apple.com/search?media=podcast&entity=podcast&term=";

/// The address at which iTunes is asked for the podcasts that match
/// `search_str`.
pub fn itunes_search_url(search_str: &str) -> (r: String)
    ensures
        r@ == ITUNES_SEARCH@ + percent_encoded(search_str@),
{
    let mut url = String::from_str(ITUNES_SEARCH);
    let encoded = percent_encode(search_str);
    url.append(encoded.as_str());
    url
}

/// The strings that the objects of a list in a JSON text hold under two
/// keys: `text` is read as JSON, `list` is the key of the list in the
/// outermost object, and for each entry of the list come the strings under
/// the keys `first` and `second`, each `None` where the entry holds no
/// string there. `None` where `text` is no JSON or holds no list under
/// `list`.
pub uninterp spec fn json_rows(
    text: Seq<char>,
    list: Seq<char>,
    first: Seq<char>,
    second: Seq<char>,
) -> Option<Seq<(Option<Seq<char>>, Option<Seq<char>>)>>;

/// The characters of each string of `rows`.
pub open spec fn row_views(rows: Seq<(Option<String>, Option<String>)>) -> Seq<
    (Option<Seq<char>>, Option<Seq<char>>),
> {
    Seq::new(
        rows.len(),
        |i: int|
            (
                match rows[i].0 {
                    Some(s) => Some(s@),
                    None => None,
                },
                match rows[i].1 {
                    Some(s) => Some(s@),
                    None => None,
                },
            ),
    )
}

/// `serde_json::from_str` reads a JSON text; `Value::get` looks a key up in
/// an object, `Value::as_array` gives the entries of a list and
/// `Value::as_str` the characters of a string, each `None` where the value
/// is of another kind. The contract gives the strings a name: they depend
/// on the text and the keys alone.
#[verifier::external_body]
fn read_json_rows(text: &str, list: &str, first: &str, second: &str) -> (r: Option<
    Vec<(Option<String>, Option<String>)>,
>)
    ensures
        match r {
            Some(rows) => json_rows(text@, list@, first@, second@) == Some(row_views(rows@)),
            None => json_rows(text@, list@, first@, second@) is None,
        },
{
    let value: serde_json::Value = serde_json::from_str(text).ok()?;
    let items = value.get(list)?.as_array()?;
    let a = items.iter().map(|v| v.get(first).and_then(|s| s.as_str()).map(str::to_string));
    let b = items.iter().map(|v| v.get(second).and_then(|s| s.as_str()).map(str::to_string));
    Some(a.zip(b).collect())
}

/// The feeds that the rows `rows` of titles and addresses name: one for
/// each row that has both, in their order.
pub open spec fn feeds_of_rows(rows: Seq<(Option<Seq<char>>, Option<Seq<char>>)>) -> Seq<
    (Seq<char>, Seq<char>),
>
    decreases rows.len(),
{
    if rows.len() == 0 {
        Seq::empty()
    } else {
        match rows.last() {
            (Some(title), Some(url)) => feeds_of_rows(rows.drop_last()).push((title, url)),
            _ => feeds_of_rows(rows.drop_last()),
        }
    }
}

/// Whether `feeds` are feeds without an id that have the titles and
/// addresses `named`, in their order.
pub open spec fn are_feeds_named(feeds: Seq<PodcastFeed>, named: Seq<(Seq<char>, Seq<char>)>) -> bool {
    &&& feeds.len() == named.len()
    &&& forall|i: int|
        0 <= i < feeds.len() ==> {
            &&& (#[trigger] feeds[i]).id is None
            &&& feeds[i].title is Some
            &&& feeds[i].title->0@ == named[i].0
            &&& feeds[i].url@ == named[i].1
        }
}

/// The feeds that rows of titles and addresses name.
pub fn feeds_from_rows(rows: &Vec<(Option<String>, Option<String>)>) -> (r: Vec<PodcastFeed>)
    ensures
        are_feeds_named(r@, feeds_of_rows(row_views(rows@))),
{
    let ghost all = row_views(rows@);
    let mut feeds: Vec<PodcastFeed> = Vec::new();
    let mut i: usize = 0;
    assert(all.take(0) =~= Seq::<(Option<Seq<char>>, Option<Seq<char>>)>::empty());
    while i < rows.len()
        invariant
            i <= rows@.len(),
            all == row_views(rows@),
            are_feeds_named(feeds@, feeds_of_rows(all.take(i as int))),
        decreases rows@.len() - i,
    {
        assert(all.take(i + 1).drop_last() =~= all.take(i as int));
        assert(all.take(i + 1).last() == all[i as int]);
        match (&rows[i].0, &rows[i].1) {
            (Some(title), Some(url)) => {
                feeds.push(PodcastFeed::new(None, url.clone(), Some(title.clone())));
            },
            _ => {},
        }
        i += 1;
    }
    assert(all.take(rows@.len() as int) =~= all);
    feeds
}

/// The feeds that an answer of iTunes to a search names: one for each entry
/// of its list `results` that has a `collectionName` and a `feedUrl`.
/// `None` where the answer is no JSON or has no such list.
pub fn parse_itunes_results(data: &str) -> (r: Option<Vec<PodcastFeed>>)
    ensures
        match json_rows(data@, "results"@, "collectionName"@, "feedUrl"@) {
            Some(rows) => r is Some && are_feeds_named(r->0@, feeds_of_rows(rows)),
            None => r is None,
        },
{
    match read_json_rows(data, "results", "collectionName", "feedUrl") {
        Some(rows) => Some(feeds_from_rows(&rows)),
        None => None,
    }
}

/// Whether one of the guids `known` is `guid`.
pub open spec fn known_guid(known: Seq<Seq<char>>, guid: Seq<char>) -> bool {
    known.contains(guid)
}

/// The guids of the catalog's episodes `eps`, in their order.
pub open spec fn guids_of(eps: Seq<Episode>) -> Seq<Seq<char>> {
    Seq::new(eps.len(), |i: int| eps[i].guid@)
}

/// The guids of the fetched episodes `eps`, in their order.
pub open spec fn fetched_guids(eps: Seq<EpisodeNoId>) -> Seq<Seq<char>> {
    Seq::new(eps.len(), |i: int| eps[i].guid@)
}

/// Whether no guid occurs twice in `guids`.
pub open spec fn distinct_guids(guids: Seq<Seq<char>>) -> bool {
    forall|i: int, j: int| 0 <= i < j < guids.len() ==> #[trigger] guids[i] != #[trigger] guids[j]
}

/// The episodes of `fetched` that a podcast with the guids `known` does not
/// hold yet: those whose guid is neither among `known` nor that of an
/// episode kept before, in their order.
pub open spec fn fresh_of(known: Seq<Seq<char>>, fetched: Seq<EpisodeNoId>) -> Seq<EpisodeNoId>
    decreases fetched.len(),
{
    if fetched.len() == 0 {
        Seq::empty()
    } else {
        let before = fresh_of(known, fetched.drop_last());
        let guid = fetched.last().guid@;
        if known_guid(known, guid) || known_guid(fetched_guids(before), guid) {
            before
        } else {
            before.push(fetched.last())
        }
    }
}

/// The new episodes of a refresh have guids that differ from each other
/// and from those the podcast holds: a podcast whose episodes have distinct
/// guids still has when the new episodes are added.
pub proof fn lemma_fresh_distinct(known: Seq<Seq<char>>, fetched: Seq<EpisodeNoId>)
    ensures
        distinct_guids(fetched_guids(fresh_of(known, fetched))),
        forall|i: int|
            0 <= i < fresh_of(known, fetched).len() ==> !known_guid(
                known,
                (#[trigger] fresh_of(known, fetched)[i]).guid@,
            ),
        distinct_guids(known) ==> distinct_guids(known + fetched_guids(fresh_of(known, fetched))),
        forall|k: int|
            0 <= k < fetched.len() ==> known_guid(
                known + fetched_guids(fresh_of(known, fetched)),
                (#[trigger] fetched[k]).guid@,
            ),
    decreases fetched.len(),
{
    let fresh = fresh_of(known, fetched);
    let guids = fetched_guids(fresh);
    if fetched.len() > 0 {
        let front = fetched.drop_last();
        let before = fresh_of(known, front);
        let bg = fetched_guids(before);
        lemma_fresh_distinct(known, front);
        let guid = fetched.last().guid@;
        assert forall|i: int, j: int| 0 <= i < j < guids.len() implies #[trigger] guids[i]
            != #[trigger] guids[j] by {
            assert(guids[i] == bg[i]);
            if j < bg.len() {
                assert(guids[j] == bg[j]);
            } else {
                assert(guids[j] == guid);
            }
        }
        assert forall|i: int| 0 <= i < fresh.len() implies !known_guid(
            known,
            (#[trigger] fresh[i]).guid@,
        ) by {
            if i < before.len() {
                assert(fresh[i] == before[i]);
            }
        }
        assert forall|k: int| 0 <= k < fetched.len() implies known_guid(
            known + guids,
            (#[trigger] fetched[k]).guid@,
        ) by {
            let all_before = known + bg;
            let all = known + guids;
            if k < front.len() {
                assert(front[k] == fetched[k]);
                let q = choose|q: int| 0 <= q < all_before.len() && all_before[q] == front[k].guid@;
                if q < known.len() {
                    assert(all[q] == known[q]);
                } else {
                    assert(all[q] == guids[q - known.len()]);
                    assert(guids[q - known.len()] == bg[q - known.len()]);
                }
            } else {
                if known_guid(known, guid) {
                    let q = choose|q: int| 0 <= q < known.len() && known[q] == guid;
                    assert(all[q] == guid);
                } else if known_guid(bg, guid) {
                    let q = choose|q: int| 0 <= q < bg.len() && bg[q] == guid;
                    assert(all[known.len() + q] == guid);
                } else {
                    assert(all[all.len() - 1] == guid);
                }
            }
        }
    }
    if distinct_guids(known) {
        let all = known + guids;
        assert forall|i: int, j: int| 0 <= i < j < all.len() implies #[trigger] all[i]
            != #[trigger] all[j] by {
            if j < known.len() {
                assert(all[i] == known[i] && all[j] == known[j]);
            } else if i < known.len() {
                assert(all[i] == known[i]);
                assert(all[j] == guids[j - known.len()]);
                assert(!known_guid(known, fresh[j - known.len()].guid@));
            } else {
                assert(all[i] == guids[i - known.len()] && all[j] == guids[j - known.len()]);
            }
        }
    }
}

/// A refresh adds nothing to a podcast that holds the guid of every fetched
/// episode: the same feed, fetched again, never adds an episode twice.
pub proof fn lemma_refresh_adds_once(known: Seq<Seq<char>>, fetched: Seq<EpisodeNoId>)
    requires
        forall|k: int| 0 <= k < fetched.len() ==> known_guid(known, (#[trigger] fetched[k]).guid@),
    ensures
        fresh_of(known, fetched).len() == 0,
    decreases fetched.len(),
{
    if fetched.len() > 0 {
        let front = fetched.drop_last();
        assert forall|k: int| 0 <= k < front.len() implies known_guid(
            known,
            (#[trigger] front[k]).guid@,
        ) by {
            assert(front[k] == fetched[k]);
        }
        lemma_refresh_adds_once(known, front);
        assert(known_guid(known, fetched[fetched.len() - 1].guid@));
    }
}

/// A copy of `ep`.
pub fn clone_episode_no_id(ep: &EpisodeNoId) -> (r: EpisodeNoId)
    ensures
        r == *ep,
{
    EpisodeNoId {
        title: ep.title.clone(),
        url: ep.url.clone(),
        guid: ep.guid.clone(),
        description: ep.description.clone(),
        pubdate: ep.pubdate,
        duration: ep.duration,
        image_url: clone_text(&ep.image_url),
    }
}

/// The episodes of `fetched` that the podcast with the episodes `existing`
/// does not hold yet, by their guids, for the store to add.
pub fn new_episodes(existing: &Vec<Episode>, fetched: &Vec<EpisodeNoId>) -> (r: Vec<EpisodeNoId>)
    ensures
        r@ == fresh_of(guids_of(existing@), fetched@),
        distinct_guids(fetched_guids(r@)),
        distinct_guids(guids_of(existing@)) ==> distinct_guids(
            guids_of(existing@) + fetched_guids(r@),
        ),
{
    let ghost known = guids_of(existing@);
    let mut out: Vec<EpisodeNoId> = Vec::new();
    let mut i: usize = 0;
    assert(fetched@.take(0) =~= Seq::<EpisodeNoId>::empty());
    while i < fetched.len()
        invariant
            i <= fetched@.len(),
            known == guids_of(existing@),
            out@ == fresh_of(known, fetched@.take(i as int)),
        decreases fetched@.len() - i,
    {
        assert(fetched@.take(i + 1).drop_last() =~= fetched@.take(i as int));
        assert(fetched@.take(i + 1).last() == fetched@[i as int]);
        let guid = fetched[i].guid.as_str();
        let mut held = false;
        let mut k: usize = 0;
        while k < existing.len() && !held
            invariant
                k <= existing@.len(),
                known == guids_of(existing@),
                held ==> known_guid(known, guid@),
                !held ==> forall|j: int| 0 <= j < k ==> #[trigger] known[j] != guid@,
            decreases existing@.len() - k + (if held {
                0int
            } else {
                1int
            }),
        {
            if same_text(existing[k].guid.as_str(), guid) {
                assert(known[k as int] == guid@);
                held = true;
            } else {
                assert(known[k as int] == existing@[k as int].guid@);
                k += 1;
            }
        }
        let ghost kept = fetched_guids(out@);
        let mut k: usize = 0;
        while k < out.len() && !held
            invariant
                k <= out@.len(),
                kept == fetched_guids(out@),
                held ==> known_guid(known, guid@) || known_guid(kept, guid@),
                !held ==> !known_guid(known, guid@) && forall|j: int|
                    0 <= j < k ==> #[trigger] kept[j] != guid@,
            decreases out@.len() - k + (if held {
                0int
            } else {
                1int
            }),
        {
            if same_text(out[k].guid.as_str(), guid) {
                assert(kept[k as int] == guid@);
                held = true;
            } else {
                assert(kept[k as int] == out@[k as int].guid@);
                k += 1;
            }
        }
        if !held {
            out.push(clone_episode_no_id(&fetched[i]));
        }
        i += 1;
    }
    assert(fetched@.take(fetched@.len() as int) =~= fetched@);
    proof {
        lemma_fresh_distinct(known, fetched@);
    }
    out
}

} // verus!
