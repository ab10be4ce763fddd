//! What the player's front end keeps of the catalog and of the podcasts, and
//! the decisions it takes on them. Whatever has to reach the disk, the
//! network or a store is handed back to the caller to carry out.

use crate::collation::texts;
use crate::library::{playlist_rows, Catalog, SearchCriteria, TrackDB};
use crate::player::PlayerTimeUnit;
use crate::podcast::{same_text, sanitize, sanitized, EpData, Episode, Podcast, PodcastFeed};
use crate::text::lowercased;
use vstd::prelude::*;
use vstd::std_specs::convert::FromSpecImpl;
use vstd::string::StringExecFns;

verus! {

/// Whether the text `text` has the pattern `pattern`, in which `*` stands
/// for any run of characters and `?` for any one character.
pub uninterp spec fn wildcard_matches(pattern: Seq<char>, text: Seq<char>) -> bool;

/// `wildmatch::WildMatch::new` compiles a pattern with the wildcards `*` and
/// `?`, and `WildMatch::matches` tells whether a text has it. The contract
/// gives the answer a name: it depends on the pattern and the text alone.
#[verifier::external_body]
fn wild_match(pattern: &str, text: &str) -> (r: bool)
    ensures
        r == wildcard_matches(pattern@, text@),
{
    wildmatch::WildMatch::new(pattern).matches(text)
}

/// What a record offers to a search: its file, title, album, artist and
/// duration, where it has them.
pub trait Matchable {
    spec fn file_text(&self) -> Option<Seq<char>>;

    spec fn title_text(&self) -> Option<Seq<char>>;

    spec fn album_text(&self) -> Option<Seq<char>>;

    spec fn artist_text(&self) -> Option<Seq<char>>;

    spec fn duration_span(&self) -> Option<PlayerTimeUnit>;

    fn meta_file(&self) -> (r: Option<String>)
        ensures
            match r {
                Some(s) => self.file_text() == Some(s@),
                None => self.file_text() is None,
            },
    ;

    fn meta_title(&self) -> (r: Option<&str>)
        ensures
            match r {
                Some(s) => self.title_text() == Some(s@),
                None => self.title_text() is None,
            },
    ;

    fn meta_album(&self) -> (r: Option<&str>)
        ensures
            match r {
                Some(s) => self.album_text() == Some(s@),
                None => self.album_text() is None,
            },
    ;

    fn meta_artist(&self) -> (r: Option<&str>)
        ensures
            match r {
                Some(s) => self.artist_text() == Some(s@),
                None => self.artist_text() is None,
            },
    ;

    fn meta_duration(&self) -> (r: Option<PlayerTimeUnit>)
        ensures
            r == self.duration_span(),
    ;
}

impl Matchable for TrackDB {
    open spec fn file_text(&self) -> Option<Seq<char>> {
        Some(self.file@)
    }

    open spec fn title_text(&self) -> Option<Seq<char>> {
        Some(self.title@)
    }

    open spec fn album_text(&self) -> Option<Seq<char>> {
        Some(self.album@)
    }

    open spec fn artist_text(&self) -> Option<Seq<char>> {
        Some(self.artist@)
    }

    open spec fn duration_span(&self) -> Option<PlayerTimeUnit> {
        self.duration
    }

    fn meta_file(&self) -> (r: Option<String>) {
        Some(self.file.clone())
    }

    fn meta_title(&self) -> (r: Option<&str>) {
        Some(self.title.as_str())
    }

    fn meta_album(&self) -> (r: Option<&str>) {
        Some(self.album.as_str())
    }

    fn meta_artist(&self) -> (r: Option<&str>) {
        Some(self.artist.as_str())
    }

    fn meta_duration(&self) -> (r: Option<PlayerTimeUnit>) {
        self.duration
    }
}

/// The criteria as the front end lists them, one to a row.
#[derive(Debug, Clone, Copy, PartialEq, Eq, Structural)]
pub enum DBCriteria {
    Artists,
    Albums,
    Genres,
    Directories,
    Playlists,
}

/// The criterion that the row `c` of the front end's list stands for.
pub open spec fn criteria_of(c: DBCriteria) -> SearchCriteria {
    match c {
        DBCriteria::Artists => SearchCriteria::Artist,
        DBCriteria::Albums => SearchCriteria::Album,
        DBCriteria::Genres => SearchCriteria::Genre,
        DBCriteria::Directories => SearchCriteria::Directory,
        DBCriteria::Playlists => SearchCriteria::Playlist,
    }
}

impl DBCriteria {
    /// The number of rows in the list of criteria.
    pub fn num_options() -> (r: u16)
        ensures
            r == 5,
            forall|idx: usize| Self::of_table_index(idx) is Some <==> idx < r,
    {
        5
    }

    /// The criterion in the row `idx` of the list, where there is such a
    /// row.
    pub open spec fn of_table_index(idx: usize) -> Option<Self> {
        if idx == 0 {
            Some(DBCriteria::Artists)
        } else if idx == 1 {
            Some(DBCriteria::Albums)
        } else if idx == 2 {
            Some(DBCriteria::Genres)
        } else if idx == 3 {
            Some(DBCriteria::Directories)
        } else if idx == 4 {
            Some(DBCriteria::Playlists)
        } else {
            None
        }
    }

    /// The criterion in the row `idx` of the list, or `None` where the list
    /// has no such row.
    pub fn from_table_index(idx: usize) -> (r: Option<Self>)
        ensures
            r == Self::of_table_index(idx),
    {
        let res = match idx {
            0 => Self::Artists,
            1 => Self::Albums,
            2 => Self::Genres,
            3 => Self::Directories,
            4 => Self::Playlists,
            _ => {
                return None;
            },
        };
        Some(res)
    }
}

impl From<DBCriteria> for SearchCriteria {
    fn from(value: DBCriteria) -> (r: Self) {
        match value {
            DBCriteria::Artists => Self::Artist,
            DBCriteria::Albums => Self::Album,
            DBCriteria::Genres => Self::Genre,
            DBCriteria::Directories => Self::Directory,
            DBCriteria::Playlists => Self::Playlist,
        }
    }
}

impl FromSpecImpl<DBCriteria> for SearchCriteria {
    open spec fn obeys_from_spec() -> bool {
        true
    }

    open spec fn from_spec(value: DBCriteria) -> Self {
        criteria_of(value)
    }
}

/// The pattern that finds `input` anywhere in a text, whatever the case of
/// `input`.
pub open spec fn search_pattern(input: Seq<char>) -> Seq<char> {
    seq!['*'] + lowercased(input) + seq!['*']
}

/// Whether the text `field`, where there is one, has the pattern `pattern`
/// once it is put in lower case.
pub open spec fn field_matches(field: Option<Seq<char>>, pattern: Seq<char>) -> bool {
    match field {
        Some(text) => wildcard_matches(pattern, lowercased(text)),
        None => false,
    }
}

/// Whether the artist, the title or the album of `record` has the pattern
/// `pattern`.
pub open spec fn record_matches<T: Matchable>(record: &T, pattern: Seq<char>) -> bool {
    field_matches(record.artist_text(), pattern) || field_matches(record.title_text(), pattern)
        || field_matches(record.album_text(), pattern)
}

/// Tells whether the text `field` has the pattern `pattern` once it is put
/// in lower case.
fn field_match(field: Option<&str>, pattern: &str) -> (r: bool)
    ensures
        r == field_matches(
            match field {
                Some(s) => Some(s@),
                None => None,
            },
            pattern@,
        ),
{
    match field {
        Some(text) => {
            let lower = text.to_lowercase();
            wild_match(pattern, lower.as_str())
        },
        None => false,
    }
}

/// Why the front end cannot do what was asked.
#[derive(Debug, Clone, Copy, PartialEq, Eq, Structural)]
pub enum ModelError {
    /// There is no podcast at the index that was selected.
    PodcastNotSelected,
    /// There is no episode at the index that was selected.
    EpisodeNotSelected,
    /// No episode has the id that was asked for.
    EpisodeNotFound,
    /// No podcast has the id that was asked for.
    PodcastNotFound,
}

impl ModelError {
    /// The error in words.
    pub fn to_string(&self) -> (r: String)
        ensures
            r@ == match *self {
                ModelError::PodcastNotSelected => "get podcast selected failed."@,
                ModelError::EpisodeNotSelected => "get episode selected failed"@,
                ModelError::EpisodeNotFound => "Cannot find ep_id"@,
                ModelError::PodcastNotFound => "Cannot find pod_id"@,
            },
    {
        match self {
            ModelError::PodcastNotSelected => String::from_str("get podcast selected failed."),
            ModelError::EpisodeNotSelected => String::from_str("get episode selected failed"),
            ModelError::EpisodeNotFound => String::from_str("Cannot find ep_id"),
            ModelError::PodcastNotFound => String::from_str("Cannot find pod_id"),
        }
    }
}

/// The podcasts that the front end shows, and which of them is selected.
pub struct PodcastWidget {
    pub podcasts: Vec<Podcast>,
    pub podcasts_index: usize,
}

/// The search in the catalog that the front end shows: the criterion, the
/// values found for it, and the tracks of the value that was picked.
pub struct DatabaseWidget {
    pub criteria: SearchCriteria,
    pub search_results: Vec<String>,
    pub search_tracks: Vec<TrackDB>,
}

/// The state of the front end.
pub struct Model {
    pub podcast: PodcastWidget,
    pub dw: DatabaseWidget,
    pub db: Catalog,
    /// The addresses of the episodes that are being downloaded.
    pub download_tracker: Vec<String>,
}

/// Whether the episode at `e` of the podcast at `p` is the first episode of
/// `podcasts`, podcast by podcast, with the id `id`.
pub open spec fn is_first_with_id(podcasts: Seq<Podcast>, id: int, p: int, e: int) -> bool {
    &&& 0 <= p < podcasts.len()
    &&& 0 <= e < podcasts[p].episodes@.len()
    &&& podcasts[p].episodes@[e].id == id
    &&& forall|j: int| 0 <= j < e ==> (#[trigger] podcasts[p].episodes@[j]).id != id
    &&& forall|q: int, j: int|
        0 <= q < p && 0 <= j < podcasts[q].episodes@.len() ==> (
        #[trigger] podcasts[q].episodes@[j]).id != id
}

/// Whether an episode of `podcasts` has the id `id`.
pub open spec fn has_episode_id(podcasts: Seq<Podcast>, id: int) -> bool {
    exists|q: int, j: int|
        0 <= q < podcasts.len() && 0 <= j < podcasts[q].episodes@.len() && (
        #[trigger] podcasts[q].episodes@[j]).id == id
}

/// Whether the episode at `e` of the podcast at `p` is the first episode of
/// `podcasts`, podcast by podcast, with the address `url`.
pub open spec fn is_first_with_url(podcasts: Seq<Podcast>, url: Seq<char>, p: int, e: int) -> bool {
    &&& 0 <= p < podcasts.len()
    &&& 0 <= e < podcasts[p].episodes@.len()
    &&& podcasts[p].episodes@[e].url@ == url
    &&& forall|j: int| 0 <= j < e ==> (#[trigger] podcasts[p].episodes@[j]).url@ != url
    &&& forall|q: int, j: int|
        0 <= q < p && 0 <= j < podcasts[q].episodes@.len() ==> (
        #[trigger] podcasts[q].episodes@[j]).url@ != url
}

/// Whether an episode of `podcasts` has the address `url`.
pub open spec fn has_episode_url(podcasts: Seq<Podcast>, url: Seq<char>) -> bool {
    exists|q: int, j: int|
        0 <= q < podcasts.len() && 0 <= j < podcasts[q].episodes@.len() && (
        #[trigger] podcasts[q].episodes@[j]).url@ == url
}

/// The place of the first episode of `podcasts` with the address `url`.
fn find_episode_by_url(podcasts: &Vec<Podcast>, url: &str) -> (r: Option<(usize, usize)>)
    ensures
        match r {
            Some((p, e)) => is_first_with_url(podcasts@, url@, p as int, e as int),
            None => !has_episode_url(podcasts@, url@),
        },
{
    let mut p: usize = 0;
    while p < podcasts.len()
        invariant
            p <= podcasts@.len(),
            forall|q: int, j: int|
                0 <= q < p && 0 <= j < podcasts@[q].episodes@.len() ==> (
                #[trigger] podcasts@[q].episodes@[j]).url@ != url@,
        decreases podcasts@.len() - p,
    {
        let mut e: usize = 0;
        while e < podcasts[p].episodes.len()
            invariant
                p < podcasts@.len(),
                e <= podcasts@[p as int].episodes@.len(),
                forall|j: int|
                    0 <= j < e ==> (#[trigger] podcasts@[p as int].episodes@[j]).url@ != url@,
                forall|q: int, j: int|
                    0 <= q < p && 0 <= j < podcasts@[q].episodes@.len() ==> (
                    #[trigger] podcasts@[q].episodes@[j]).url@ != url@,
            decreases podcasts@[p as int].episodes@.len() - e,
        {
            if same_text(podcasts[p].episodes[e].url.as_str(), url) {
                return Some((p, e));
            }
            e += 1;
        }
        p += 1;
    }
    None
}

/// A copy of `s`.
fn clone_option(s: &Option<String>) -> (r: Option<String>)
    ensures
        r == *s,
{
    match s {
        Some(t) => Some(t.clone()),
        None => None,
    }
}

/// Tells whether `list` holds the text `s`.
fn holds_text(list: &Vec<String>, s: &str) -> (r: bool)
    ensures
        r == texts(list@).contains(s@),
{
    let mut i: usize = 0;
    while i < list.len()
        invariant
            i <= list@.len(),
            forall|j: int| 0 <= j < i ==> #[trigger] texts(list@)[j] != s@,
        decreases list@.len() - i,
    {
        if same_text(list[i].as_str(), s) {
            assert(texts(list@)[i as int] == s@);
            return true;
        }
        assert(texts(list@)[i as int] == list@[i as int]@);
        i += 1;
    }
    false
}

/// Whether the episode `ep` is to be downloaded: its file is not on disk
/// and no download of its address is under way.
pub open spec fn to_download(ep: Episode, tracker: Seq<Seq<char>>) -> bool {
    ep.path is None && !tracker.contains(ep.url@)
}

/// Whether `data` is what a download task is told of the episode `ep`.
pub open spec fn is_data_of(data: EpData, ep: Episode) -> bool {
    &&& data.id == ep.id
    &&& data.pod_id == ep.pod_id
    &&& data.title == ep.title
    &&& data.url == ep.url
    &&& data.pubdate == ep.pubdate
    &&& data.file_path is None
}

/// What a download task is told of each of the episodes `eps` that is to be
/// downloaded, in their order.
pub open spec fn downloads_of(eps: Seq<Episode>, tracker: Seq<Seq<char>>) -> Seq<Episode>
    decreases eps.len(),
{
    if eps.len() == 0 {
        Seq::empty()
    } else if to_download(eps.last(), tracker) {
        downloads_of(eps.drop_last(), tracker).push(eps.last())
    } else {
        downloads_of(eps.drop_last(), tracker)
    }
}

/// What a download task is told of the episode `ep`.
fn ep_data_of(ep: &Episode) -> (r: EpData)
    ensures
        is_data_of(r, *ep),
{
    EpData {
        id: ep.id,
        pod_id: ep.pod_id,
        title: ep.title.clone(),
        url: ep.url.clone(),
        pubdate: ep.pubdate,
        file_path: None,
    }
}

/// What is to be downloaded, and the name of the directory it goes to.
pub struct DownloadPlan {
    pub dir_name: String,
    pub episodes: Vec<EpData>,
}

/// The feed by which the podcast `pod` is fetched again.
pub open spec fn feed_of(pod: Podcast) -> PodcastFeed {
    PodcastFeed { id: Some(pod.id), url: pod.url, title: Some(pod.title) }
}

/// The paths of the files of the episodes `eps` that are on disk, in their
/// order.
pub open spec fn paths_of(eps: Seq<Episode>) -> Seq<Seq<char>>
    decreases eps.len(),
{
    if eps.len() == 0 {
        Seq::empty()
    } else {
        match eps.last().path {
            Some(p) => paths_of(eps.drop_last()).push(p@),
            None => paths_of(eps.drop_last()),
        }
    }
}

/// The paths of the files of all episodes of `podcasts` that are on disk,
/// podcast by podcast.
pub open spec fn all_paths_of(podcasts: Seq<Podcast>) -> Seq<Seq<char>>
    decreases podcasts.len(),
{
    if podcasts.len() == 0 {
        Seq::empty()
    } else {
        all_paths_of(podcasts.drop_last()) + paths_of(podcasts.last().episodes@)
    }
}

/// The entries of a playlist as texts, where there are entries.
pub open spec fn entry_texts(playlist: Option<&Vec<String>>) -> Option<Seq<Seq<char>>> {
    match playlist {
        Some(entries) => Some(texts(entries@)),
        None => None,
    }
}

/// The tracks of the value `val` of the criterion `c` among `rows`: for a
/// playlist the rows of its entries, where there are entries, for another
/// criterion the rows that hold `val`, in the order of their names.
pub open spec fn tracks_by(
    rows: Seq<TrackDB>,
    c: SearchCriteria,
    val: Seq<char>,
    playlist: Option<Seq<Seq<char>>>,
) -> Option<Seq<TrackDB>> {
    if c == SearchCriteria::Playlist {
        match playlist {
            Some(entries) => Some(playlist_rows(rows, entries)),
            None => None,
        }
    } else {
        Some(crate::library::listing_of(crate::library::matching(rows, c, val)))
    }
}

/// The tracks of all the values `results` of the criterion `c`, value by
/// value. `playlists` holds the entries of the playlist for each value.
pub open spec fn all_tracks_of(
    rows: Seq<TrackDB>,
    c: SearchCriteria,
    results: Seq<Seq<char>>,
    playlists: Seq<Option<Vec<String>>>,
) -> Seq<TrackDB>
    decreases results.len(),
{
    if results.len() == 0 {
        Seq::empty()
    } else {
        let before = all_tracks_of(rows, c, results.drop_last(), playlists);
        let entries = if results.len() - 1 < playlists.len() {
            match playlists[results.len() - 1] {
                Some(e) => Some(texts(e@)),
                None => None,
            }
        } else {
            None
        };
        match tracks_by(rows, c, results.last(), entries) {
            Some(found) => before + found,
            None => before,
        }
    }
}

/// The ids of the episodes of `eps` whose files are among the paths
/// `removed`, in their order.
pub open spec fn removed_ids(eps: Seq<Episode>, removed: Seq<Seq<char>>) -> Seq<i64>
    decreases eps.len(),
{
    if eps.len() == 0 {
        Seq::empty()
    } else if file_removed(eps.last(), removed) {
        removed_ids(eps.drop_last(), removed).push(eps.last().id)
    } else {
        removed_ids(eps.drop_last(), removed)
    }
}

/// Whether the file of the episode `ep` is among the paths `removed`.
pub open spec fn file_removed(ep: Episode, removed: Seq<Seq<char>>) -> bool {
    ep.path is Some && removed.contains(ep.path->0@)
}

/// The episode `ep` once the files at the paths `removed` are gone from the
/// disk: without its path where that is among them.
pub open spec fn without_file(ep: Episode, removed: Seq<Seq<char>>) -> Episode {
    if file_removed(ep, removed) {
        Episode { path: None, ..ep }
    } else {
        ep
    }
}

/// What became of the files of a podcast.
pub struct FilesRemoved {
    /// The ids of the episodes whose files are gone, for the store.
    pub ids: Vec<i64>,
    /// Whether no episode has a file left.
    pub all: bool,
}

/// Whether the title `title` holds `input`, whatever the case of either.
pub open spec fn title_matches(title: Seq<char>, input: Seq<char>) -> bool {
    wildcard_matches(search_pattern(input), lowercased(title))
}

/// The pattern that finds `input` anywhere in a text.
fn pattern_for(input: &str) -> (r: String)
    ensures
        r@ == search_pattern(input@),
{
    let mut search = String::new();
    search.push('*');
    let lower = input.to_lowercase();
    search.append(lower.as_str());
    search.push('*');
    assert(search@ =~= search_pattern(input@));
    search
}

/// The names `names` at the indices `order`.
pub open spec fn arranged(names: Seq<Seq<char>>, order: Seq<int>) -> Seq<Seq<char>> {
    Seq::new(order.len(), |q: int| names[order[q]])
}

/// The number of the episodes `eps` that are not played.
pub open spec fn unplayed(eps: Seq<Episode>) -> nat
    decreases eps.len(),
{
    if eps.len() == 0 {
        0
    } else if eps.last().played {
        unplayed(eps.drop_last())
    } else {
        unplayed(eps.drop_last()) + 1
    }
}

/// What the list of feeds shows for the podcast `pod`: its title and, in
/// brackets, how many of its episodes are not played and how many there
/// are.
pub open spec fn feed_row_text(pod: Podcast) -> Seq<char> {
    pod.title@ + seq![' ', '('] + crate::text::decimal_digits(unplayed(pod.episodes@)) + seq!['/']
        + crate::text::decimal_digits(pod.episodes@.len()) + seq![')']
}

/// What the list of episodes shows for the episode `ep`: its title, behind
/// the mark `[D]` where its file is on disk.
pub open spec fn episode_row_text(ep: Episode) -> Seq<char> {
    if ep.path is Some {
        seq!['[', 'D', ']', ' '] + ep.title@
    } else {
        ep.title@
    }
}

/// One row of a list of the front end: its text, and whether it is set off
/// from the others.
#[derive(Debug, Clone, PartialEq, Eq)]
pub struct ListRow {
    pub text: String,
    pub marked: bool,
}

/// The rows that the list of search results shows for the values `results`
/// of the criterion `c`: for each value with a name to show, its number and
/// the name. The numbers count from one.
pub open spec fn result_rows_of(c: SearchCriteria, results: Seq<Seq<char>>) -> Seq<
    (nat, Seq<char>),
>
    decreases results.len(),
{
    if results.len() == 0 {
        Seq::empty()
    } else {
        let before = result_rows_of(c, results.drop_last());
        let name = display_name_of(c, results.last());
        if name.len() > 0 {
            before.push((before.len() + 1, name))
        } else {
            before
        }
    }
}

/// The last two parts of the path `path`, with a slash between them, or
/// nothing where the path has no slash.
pub open spec fn last_two_parts(path: Seq<char>) -> Seq<char> {
    let cut = crate::library::after_last(path, '/');
    if cut == 0 {
        Seq::empty()
    } else {
        path.skip(crate::library::after_last(path.take(cut - 1), '/'))
    }
}

/// What the list of search results shows for the value `record` of the
/// criterion `c`: for a playlist the last two parts of its path, for a
/// directory the same with a slash behind, else the value itself.
pub open spec fn display_name_of(c: SearchCriteria, record: Seq<char>) -> Seq<char> {
    match c {
        SearchCriteria::Playlist => last_two_parts(record),
        SearchCriteria::Directory => if last_two_parts(record).len() == 0 {
            Seq::empty()
        } else {
            last_two_parts(record) + seq!['/']
        },
        _ => record,
    }
}

/// The index behind the last `c` among the first `n` characters of `s`.
fn index_after_last_within(s: &[char], n: usize, c: char) -> (r: usize)
    requires
        n <= s@.len(),
    ensures
        r == crate::library::after_last(s@.take(n as int), c),
        r <= n,
{
    let mut k: usize = n;
    while k > 0 && s[k - 1] != c
        invariant
            k <= n <= s@.len(),
            crate::library::after_last(s@.take(n as int), c) == crate::library::after_last(
                s@.take(k as int),
                c,
            ),
        decreases k,
    {
        assert(s@.take(k as int).drop_last() =~= s@.take(k - 1));
        k -= 1;
    }
    k
}

/// What the list of search results shows for the value `record` of the
/// criterion `c`. A value for which this is empty is not listed.
pub fn display_name(c: SearchCriteria, record: &str) -> (r: String)
    ensures
        r@ == display_name_of(c, record@),
{
    match c {
        SearchCriteria::Playlist | SearchCriteria::Directory => {
            let chars = crate::text::chars_of(record);
            let all = chars.as_slice();
            assert(all@.take(all@.len() as int) =~= all@);
            let cut = index_after_last_within(all, all.len(), '/');
            if cut == 0 {
                return String::new();
            }
            let start = index_after_last_within(all, cut - 1, '/');
            assert(all@.take(all@.len() as int).take(cut - 1) =~= all@.take(cut - 1));
            let tail = vstd::slice::slice_subrange(all, start, all.len());
            assert(tail@ == all@.skip(start as int));
            let mut out = crate::text::string_of(tail);
            match c {
                SearchCriteria::Directory => {
                    out.push('/');
                },
                _ => {},
            }
            out
        },
        _ => String::from_str(record),
    }
}

impl Model {
    /// A front end with the catalog `db`, no podcasts and no search.
    pub fn new(db: Catalog) -> (r: Self)
        ensures
            r.db == db,
            r.podcast.podcasts@.len() == 0,
            r.podcast.podcasts_index == 0,
            r.dw.criteria == SearchCriteria::Artist,
            r.dw.search_results@.len() == 0,
            r.dw.search_tracks@.len() == 0,
            r.download_tracker@.len() == 0,
    {
        Model {
            podcast: PodcastWidget { podcasts: Vec::new(), podcasts_index: 0 },
            dw: DatabaseWidget {
                criteria: SearchCriteria::Artist,
                search_results: Vec::new(),
                search_tracks: Vec::new(),
            },
            db,
            download_tracker: Vec::new(),
        }
    }

    /// Finds the first episode with the id `ep_id` and selects its podcast.
    /// Gives the indices of the podcast and of the episode, or the error
    /// `EpisodeNotFound`, with nothing changed, where no episode has the id.
    pub fn podcast_find_by_ep_id(&mut self, ep_id: usize) -> (r: Result<(usize, usize), ModelError>)
        ensures
            final(self).podcast.podcasts == old(self).podcast.podcasts,
            final(self).dw == old(self).dw,
            final(self).db == old(self).db,
            final(self).download_tracker == old(self).download_tracker,
            match r {
                Ok((p, e)) => is_first_with_id(
                    old(self).podcast.podcasts@,
                    ep_id as int,
                    p as int,
                    e as int,
                ) && final(self).podcast.podcasts_index == p,
                Err(err) => err == ModelError::EpisodeNotFound && !has_episode_id(
                    old(self).podcast.podcasts@,
                    ep_id as int,
                ) && final(self).podcast.podcasts_index == old(self).podcast.podcasts_index,
            },
    {
        let mut p: usize = 0;
        while p < self.podcast.podcasts.len()
            invariant
                *self == *old(self),
                p <= self.podcast.podcasts@.len(),
                forall|q: int, j: int|
                    0 <= q < p && 0 <= j < self.podcast.podcasts@[q].episodes@.len() ==> (
                    #[trigger] self.podcast.podcasts@[q].episodes@[j]).id != ep_id as int,
            decreases self.podcast.podcasts@.len() - p,
        {
            let mut e: usize = 0;
            while e < self.podcast.podcasts[p].episodes.len()
                invariant
                    *self == *old(self),
                    p < self.podcast.podcasts@.len(),
                    e <= self.podcast.podcasts@[p as int].episodes@.len(),
                    forall|j: int|
                        0 <= j < e ==> (#[trigger] self.podcast.podcasts@[p as int].episodes@[j]).id
                            != ep_id as int,
                    forall|q: int, j: int|
                        0 <= q < p && 0 <= j < self.podcast.podcasts@[q].episodes@.len() ==> (
                        #[trigger] self.podcast.podcasts@[q].episodes@[j]).id != ep_id as int,
                decreases self.podcast.podcasts@[p as int].episodes@.len() - e,
            {
                if self.podcast.podcasts[p].episodes[e].id as i128 == ep_id as i128 {
                    self.podcast.podcasts_index = p;
                    return Ok((p, e));
                }
                e += 1;
            }
            p += 1;
        }
        Err(ModelError::EpisodeNotFound)
    }

    /// Finds the first podcast with the id `pod_id` and selects it. Gives
    /// its index, or the error `PodcastNotFound`, with nothing changed,
    /// where no podcast has the id.
    pub fn podcast_find_by_pod_id(&mut self, pod_id: usize) -> (r: Result<usize, ModelError>)
        ensures
            final(self).podcast.podcasts == old(self).podcast.podcasts,
            final(self).dw == old(self).dw,
            final(self).db == old(self).db,
            final(self).download_tracker == old(self).download_tracker,
            match r {
                Ok(p) => {
                    &&& p < old(self).podcast.podcasts@.len()
                    &&& old(self).podcast.podcasts@[p as int].id == pod_id as int
                    &&& forall|q: int|
                        0 <= q < p ==> (#[trigger] old(self).podcast.podcasts@[q]).id
                            != pod_id as int
                    &&& final(self).podcast.podcasts_index == p
                },
                Err(err) => {
                    &&& err == ModelError::PodcastNotFound
                    &&& forall|q: int|
                        0 <= q < old(self).podcast.podcasts@.len() ==> (
                        #[trigger] old(self).podcast.podcasts@[q]).id != pod_id as int
                    &&& final(self).podcast.podcasts_index == old(self).podcast.podcasts_index
                },
            },
    {
        let mut p: usize = 0;
        while p < self.podcast.podcasts.len()
            invariant
                *self == *old(self),
                p <= self.podcast.podcasts@.len(),
                forall|q: int|
                    0 <= q < p ==> (#[trigger] self.podcast.podcasts@[q]).id != pod_id as int,
            decreases self.podcast.podcasts@.len() - p,
        {
            if self.podcast.podcasts[p].id as i128 == pod_id as i128 {
                self.podcast.podcasts_index = p;
                return Ok(p);
            }
            p += 1;
        }
        Err(ModelError::PodcastNotFound)
    }

    /// The picture of the podcast that holds the first episode with the
    /// address `url`, where there is such an episode and its podcast has a
    /// picture.
    pub fn podcast_get_album_photo_by_url(&self, url: &str) -> (r: Option<String>)
        ensures
            !has_episode_url(self.podcast.podcasts@, url@) ==> r is None,
            has_episode_url(self.podcast.podcasts@, url@) ==> exists|p: int, e: int|
                is_first_with_url(self.podcast.podcasts@, url@, p, e) && r
                    == self.podcast.podcasts@[p].image_url,
    {
        match find_episode_by_url(&self.podcast.podcasts, url) {
            Some((p, e)) => {
                let r = clone_option(&self.podcast.podcasts[p].image_url);
                assert(is_first_with_url(self.podcast.podcasts@, url@, p as int, e as int));
                r
            },
            None => None,
        }
    }

    /// Turns the played mark of the episode at `index` of the selected
    /// podcast over, and gives the episode's id and new mark for the store.
    /// Nothing happens where there are no podcasts; an error comes, with
    /// nothing changed, where the selected podcast or the episode is
    /// missing.
    pub fn episode_mark_played(&mut self, index: usize) -> (r: Result<Option<(i64, bool)>, ModelError>)
        ensures
            final(self).dw == old(self).dw,
            final(self).db == old(self).db,
            final(self).download_tracker == old(self).download_tracker,
            final(self).podcast.podcasts_index == old(self).podcast.podcasts_index,
            match r {
                Ok(None) => old(self).podcast.podcasts@.len() == 0 && final(self).podcast
                    == old(self).podcast,
                Ok(Some((id, played))) => {
                    let p = old(self).podcast.podcasts_index as int;
                    &&& p < old(self).podcast.podcasts@.len()
                    &&& index < old(self).podcast.podcasts@[p].episodes@.len()
                    &&& id == old(self).podcast.podcasts@[p].episodes@[index as int].id
                    &&& played == !old(self).podcast.podcasts@[p].episodes@[index as int].played
                    &&& final(self).podcast.podcasts@ == old(self).podcast.podcasts@.update(
                        p,
                        Podcast {
                            episodes: final(self).podcast.podcasts@[p].episodes,
                            ..old(self).podcast.podcasts@[p]
                        },
                    )
                    &&& final(self).podcast.podcasts@[p].episodes@ == old(self).podcast.podcasts@[p].episodes@.update(
                        index as int,
                        Episode { played, ..old(self).podcast.podcasts@[p].episodes@[index as int] },
                    )
                },
                Err(e) => {
                    &&& final(self).podcast == old(self).podcast
                    &&& old(self).podcast.podcasts@.len() > 0
                    &&& e == (if old(self).podcast.podcasts_index >= old(self).podcast.podcasts@.len() {
                        ModelError::PodcastNotSelected
                    } else {
                        ModelError::EpisodeNotSelected
                    })
                    &&& old(self).podcast.podcasts_index < old(self).podcast.podcasts@.len()
                        ==> index >= old(self).podcast.podcasts@[old(self).podcast.podcasts_index as int].episodes@.len()
                },
            },
    {
        if self.podcast.podcasts.len() == 0 {
            return Ok(None);
        }
        let p = self.podcast.podcasts_index;
        if p >= self.podcast.podcasts.len() {
            return Err(ModelError::PodcastNotSelected);
        }
        if index >= self.podcast.podcasts[p].episodes.len() {
            return Err(ModelError::EpisodeNotSelected);
        }
        let played = !self.podcast.podcasts[p].episodes[index].played;
        let id = self.podcast.podcasts[p].episodes[index].id;
        self.podcast.podcasts[p].episodes[index].played = played;
        assert(self.podcast.podcasts@ =~= old(self).podcast.podcasts@.update(
            p as int,
            Podcast {
                episodes: self.podcast.podcasts@[p as int].episodes,
                ..old(self).podcast.podcasts@[p as int]
            },
        ));
        assert(self.podcast.podcasts@[p as int].episodes@ =~= old(self).podcast.podcasts@[p as int].episodes@.update(
            index as int,
            Episode { played, ..old(self).podcast.podcasts@[p as int].episodes@[index as int] },
        ));
        Ok(Some((id, played)))
    }

    /// Marks every episode of the selected podcast as played where the
    /// episode at `ep_index` is not, and as not played where it is, and gives
    /// the ids of the episodes and the new mark for the store. Nothing
    /// happens where there are no podcasts; an error comes, with nothing
    /// changed, where the selected podcast or the episode is missing.
    pub fn episode_mark_all_played(&mut self, ep_index: usize) -> (r: Result<
        Option<(Vec<i64>, bool)>,
        ModelError,
    >)
        ensures
            final(self).dw == old(self).dw,
            final(self).db == old(self).db,
            final(self).download_tracker == old(self).download_tracker,
            final(self).podcast.podcasts_index == old(self).podcast.podcasts_index,
            match r {
                Ok(None) => old(self).podcast.podcasts@.len() == 0 && final(self).podcast
                    == old(self).podcast,
                Ok(Some((ids, played))) => {
                    let p = old(self).podcast.podcasts_index as int;
                    let before = old(self).podcast.podcasts@[p].episodes@;
                    let after = final(self).podcast.podcasts@[p].episodes@;
                    &&& p < old(self).podcast.podcasts@.len()
                    &&& ep_index < before.len()
                    &&& played == !before[ep_index as int].played
                    &&& final(self).podcast.podcasts@ == old(self).podcast.podcasts@.update(
                        p,
                        Podcast {
                            episodes: final(self).podcast.podcasts@[p].episodes,
                            ..old(self).podcast.podcasts@[p]
                        },
                    )
                    &&& after.len() == before.len()
                    &&& ids@.len() == before.len()
                    &&& forall|j: int|
                        0 <= j < before.len() ==> #[trigger] after[j] == (Episode {
                            played,
                            ..before[j]
                        }) && ids@[j] == before[j].id
                },
                Err(e) => {
                    &&& final(self).podcast == old(self).podcast
                    &&& old(self).podcast.podcasts@.len() > 0
                    &&& e == (if old(self).podcast.podcasts_index >= old(self).podcast.podcasts@.len() {
                        ModelError::PodcastNotSelected
                    } else {
                        ModelError::EpisodeNotSelected
                    })
                    &&& old(self).podcast.podcasts_index < old(self).podcast.podcasts@.len()
                        ==> ep_index >= old(self).podcast.podcasts@[old(self).podcast.podcasts_index as int].episodes@.len()
                },
            },
    {
        if self.podcast.podcasts.len() == 0 {
            return Ok(None);
        }
        let p = self.podcast.podcasts_index;
        if p >= self.podcast.podcasts.len() {
            return Err(ModelError::PodcastNotSelected);
        }
        if ep_index >= self.podcast.podcasts[p].episodes.len() {
            return Err(ModelError::EpisodeNotSelected);
        }
        let played = !self.podcast.podcasts[p].episodes[ep_index].played;
        let ghost before = self.podcast.podcasts@[p as int].episodes@;
        let mut ids: Vec<i64> = Vec::new();
        let mut j: usize = 0;
        while j < self.podcast.podcasts[p].episodes.len()
            invariant
                p < self.podcast.podcasts@.len(),
                self.podcast.podcasts@.len() == old(self).podcast.podcasts@.len(),
                p == old(self).podcast.podcasts_index,
                self.podcast.podcasts_index == p,
                self.dw == old(self).dw,
                self.db == old(self).db,
                self.download_tracker == old(self).download_tracker,
                before == old(self).podcast.podcasts@[p as int].episodes@,
                self.podcast.podcasts@ == old(self).podcast.podcasts@.update(
                    p as int,
                    Podcast {
                        episodes: self.podcast.podcasts@[p as int].episodes,
                        ..old(self).podcast.podcasts@[p as int]
                    },
                ),
                self.podcast.podcasts@[p as int].episodes@.len() == before.len(),
                j <= before.len(),
                ids@.len() == j,
                forall|k: int|
                    0 <= k < j ==> #[trigger] self.podcast.podcasts@[p as int].episodes@[k] == (
                    Episode { played, ..before[k] }) && ids@[k] == before[k].id,
                forall|k: int|
                    j <= k < before.len() ==> #[trigger] self.podcast.podcasts@[p as int].episodes@[k]
                        == before[k],
            decreases before.len() - j,
        {
            ids.push(self.podcast.podcasts[p].episodes[j].id);
            self.podcast.podcasts[p].episodes[j].played = played;
            assert(self.podcast.podcasts@ =~= old(self).podcast.podcasts@.update(
                p as int,
                Podcast {
                    episodes: self.podcast.podcasts@[p as int].episodes,
                    ..old(self).podcast.podcasts@[p as int]
                },
            ));
            j += 1;
        }
        Ok(Some((ids, played)))
    }

    /// Marks the first episode with the address `current_url`, the address of
    /// the track that is playing, as played, and gives the episode's id for
    /// the store where the mark was not set before. Nothing happens where
    /// nothing is playing or no episode has the address.
    pub fn podcast_mark_current_track_played(&mut self, current_url: Option<&str>) -> (r: Option<
        i64,
    >)
        ensures
            final(self).dw == old(self).dw,
            final(self).db == old(self).db,
            final(self).download_tracker == old(self).download_tracker,
            final(self).podcast.podcasts_index == old(self).podcast.podcasts_index,
            match r {
                Some(id) => current_url is Some && exists|p: int, e: int|
                    {
                        &&& is_first_with_url(old(self).podcast.podcasts@, current_url->0@, p, e)
                        &&& !old(self).podcast.podcasts@[p].episodes@[e].played
                        &&& id == old(self).podcast.podcasts@[p].episodes@[e].id
                        &&& final(self).podcast.podcasts@ == old(self).podcast.podcasts@.update(
                            p,
                            Podcast {
                                episodes: final(self).podcast.podcasts@[p].episodes,
                                ..old(self).podcast.podcasts@[p]
                            },
                        )
                        &&& final(self).podcast.podcasts@[p].episodes@ == old(self).podcast.podcasts@[p].episodes@.update(
                            e,
                            Episode { played: true, ..old(self).podcast.podcasts@[p].episodes@[e] },
                        )
                    },
                None => final(self).podcast == old(self).podcast && (current_url is Some
                    && has_episode_url(old(self).podcast.podcasts@, current_url->0@)
                    ==> exists|p: int, e: int|
                    is_first_with_url(old(self).podcast.podcasts@, current_url->0@, p, e) && old(self).podcast.podcasts@[p].episodes@[e].played),
            },
    {
        let url = match current_url {
            Some(u) => u,
            None => {
                return None;
            },
        };
        match find_episode_by_url(&self.podcast.podcasts, url) {
            Some((p, e)) => {
                if self.podcast.podcasts[p].episodes[e].played {
                    assert(is_first_with_url(old(self).podcast.podcasts@, url@, p as int, e as int));
                    return None;
                }
                let id = self.podcast.podcasts[p].episodes[e].id;
                self.podcast.podcasts[p].episodes[e].played = true;
                assert(self.podcast.podcasts@ =~= old(self).podcast.podcasts@.update(
                    p as int,
                    Podcast {
                        episodes: self.podcast.podcasts@[p as int].episodes,
                        ..old(self).podcast.podcasts@[p as int]
                    },
                ));
                assert(self.podcast.podcasts@[p as int].episodes@ =~= old(self).podcast.podcasts@[p as int].episodes@.update(
                    e as int,
                    Episode {
                        played: true,
                        ..old(self).podcast.podcasts@[p as int].episodes@[e as int]
                    },
                ));
                assert(is_first_with_url(old(self).podcast.podcasts@, url@, p as int, e as int));
                Some(id)
            },
            None => None,
        }
    }

    /// Takes the podcast at `feed_index` out of the list and gives its id
    /// for the store; then the podcast before the selected one is selected.
    /// Nothing happens where there are no podcasts. With no index only the
    /// selection moves. An index without a podcast gives the error
    /// `PodcastNotSelected`, with nothing changed.
    pub fn podcast_remove_feed(&mut self, feed_index: Option<usize>) -> (r: Result<
        Option<i64>,
        ModelError,
    >)
        ensures
            final(self).dw == old(self).dw,
            final(self).db == old(self).db,
            final(self).download_tracker == old(self).download_tracker,
            old(self).podcast.podcasts@.len() == 0 ==> r == Ok::<Option<i64>, ModelError>(None)
                && final(self).podcast == old(self).podcast,
            old(self).podcast.podcasts@.len() > 0 ==> match feed_index {
                Some(i) => if i < old(self).podcast.podcasts@.len() {
                    &&& r == Ok::<Option<i64>, ModelError>(
                        Some(old(self).podcast.podcasts@[i as int].id),
                    )
                    &&& final(self).podcast.podcasts@ == old(self).podcast.podcasts@.remove(
                        i as int,
                    )
                    &&& final(self).podcast.podcasts_index == (if old(self).podcast.podcasts_index
                        == 0 {
                        0int
                    } else {
                        old(self).podcast.podcasts_index - 1
                    })
                } else {
                    r == Err::<Option<i64>, ModelError>(ModelError::PodcastNotSelected) && final(self).podcast == old(self).podcast
                },
                None => {
                    &&& r == Ok::<Option<i64>, ModelError>(None)
                    &&& final(self).podcast.podcasts == old(self).podcast.podcasts
                    &&& final(self).podcast.podcasts_index == (if old(self).podcast.podcasts_index
                        == 0 {
                        0int
                    } else {
                        old(self).podcast.podcasts_index - 1
                    })
                },
            },
    {
        if self.podcast.podcasts.len() == 0 {
            return Ok(None);
        }
        let mut removed: Option<i64> = None;
        match feed_index {
            Some(i) => {
                if i >= self.podcast.podcasts.len() {
                    return Err(ModelError::PodcastNotSelected);
                }
                let pod = self.podcast.podcasts.remove(i);
                removed = Some(pod.id);
            },
            None => {},
        }
        if self.podcast.podcasts_index > 0 {
            self.podcast.podcasts_index = self.podcast.podcasts_index - 1;
        }
        Ok(removed)
    }

    /// Empties the list of podcasts and selects the first place. Gives the
    /// paths of the files of all episodes that were on disk, for the caller
    /// to delete.
    pub fn podcast_remove_all_feeds(&mut self) -> (r: Vec<String>)
        ensures
            final(self).dw == old(self).dw,
            final(self).db == old(self).db,
            final(self).download_tracker == old(self).download_tracker,
            texts(r@) == all_paths_of(old(self).podcast.podcasts@),
            old(self).podcast.podcasts@.len() == 0 ==> final(self).podcast == old(self).podcast,
            old(self).podcast.podcasts@.len() > 0 ==> final(self).podcast.podcasts@.len() == 0
                && final(self).podcast.podcasts_index == 0,
    {
        let mut out: Vec<String> = Vec::new();
        if self.podcast.podcasts.len() == 0 {
            assert(texts(out@) =~= all_paths_of(self.podcast.podcasts@));
            return out;
        }
        let mut p: usize = 0;
        assert(self.podcast.podcasts@.take(0) =~= Seq::<Podcast>::empty());
        assert(texts(out@) =~= all_paths_of(self.podcast.podcasts@.take(0)));
        while p < self.podcast.podcasts.len()
            invariant
                *self == *old(self),
                p <= self.podcast.podcasts@.len(),
                texts(out@) == all_paths_of(self.podcast.podcasts@.take(p as int)),
            decreases self.podcast.podcasts@.len() - p,
        {
            let ghost start = texts(out@);
            let ghost eps = self.podcast.podcasts@[p as int].episodes@;
            let mut e: usize = 0;
            assert(eps.take(0) =~= Seq::<Episode>::empty());
            assert(texts(out@) =~= start + paths_of(eps.take(0)));
            while e < self.podcast.podcasts[p].episodes.len()
                invariant
                    *self == *old(self),
                    p < self.podcast.podcasts@.len(),
                    eps == self.podcast.podcasts@[p as int].episodes@,
                    e <= eps.len(),
                    texts(out@) == start + paths_of(eps.take(e as int)),
                decreases eps.len() - e,
            {
                assert(eps.take(e + 1).drop_last() =~= eps.take(e as int));
                assert(eps.take(e + 1).last() == eps[e as int]);
                match &self.podcast.podcasts[p].episodes[e].path {
                    Some(path) => {
                        let ghost before = texts(out@);
                        out.push(path.clone());
                        assert(texts(out@) =~= before.push(path@));
                        assert(texts(out@) =~= start + paths_of(eps.take(e + 1)));
                    },
                    None => {},
                }
                e += 1;
            }
            assert(eps.take(eps.len() as int) =~= eps);
            assert(self.podcast.podcasts@.take(p + 1).drop_last() =~= self.podcast.podcasts@.take(
                p as int,
            ));
            assert(self.podcast.podcasts@.take(p + 1).last() == self.podcast.podcasts@[p as int]);
            p += 1;
        }
        assert(self.podcast.podcasts@.take(self.podcast.podcasts@.len() as int)
            =~= self.podcast.podcasts@);
        self.podcast.podcasts = Vec::new();
        self.podcast.podcasts_index = 0;
        out
    }

    /// What is to be downloaded of the selected podcast: the episode at
    /// `index`, or every episode where no index is given, as far as its file
    /// is not on disk and its address is not being downloaded; and the name
    /// of the podcast's directory. `None` where there are no podcasts; an
    /// error where the selected podcast or the episode is missing.
    pub fn episode_download(&self, index: Option<usize>) -> (r: Result<
        Option<DownloadPlan>,
        ModelError,
    >)
        ensures
            self.podcast.podcasts@.len() == 0 ==> r == Ok::<Option<DownloadPlan>, ModelError>(None),
            self.podcast.podcasts@.len() > 0 && self.podcast.podcasts_index
                >= self.podcast.podcasts@.len() ==> r == Err::<Option<DownloadPlan>, ModelError>(
                ModelError::PodcastNotSelected,
            ),
            self.podcast.podcasts_index < self.podcast.podcasts@.len() ==> {
                let pod = self.podcast.podcasts@[self.podcast.podcasts_index as int];
                let tracker = texts(self.download_tracker@);
                match index {
                    Some(i) => if i < pod.episodes@.len() {
                        &&& r is Ok
                        &&& r->Ok_0 is Some
                        &&& r->Ok_0->0.dir_name@ == sanitized(pod.title@, true, true, ""@)
                        &&& to_download(pod.episodes@[i as int], tracker) ==> r->Ok_0->0.episodes@.len()
                            == 1 && is_data_of(r->Ok_0->0.episodes@[0], pod.episodes@[i as int])
                        &&& !to_download(pod.episodes@[i as int], tracker)
                            ==> r->Ok_0->0.episodes@.len() == 0
                    } else {
                        r == Err::<Option<DownloadPlan>, ModelError>(ModelError::EpisodeNotSelected)
                    },
                    None => {
                        let wanted = downloads_of(pod.episodes@, tracker);
                        &&& r is Ok
                        &&& r->Ok_0 is Some
                        &&& r->Ok_0->0.dir_name@ == sanitized(pod.title@, true, true, ""@)
                        &&& r->Ok_0->0.episodes@.len() == wanted.len()
                        &&& forall|k: int|
                            0 <= k < wanted.len() ==> is_data_of(
                                #[trigger] r->Ok_0->0.episodes@[k],
                                wanted[k],
                            )
                    },
                }
            },
    {
        if self.podcast.podcasts.len() == 0 {
            return Ok(None);
        }
        let p = self.podcast.podcasts_index;
        if p >= self.podcast.podcasts.len() {
            return Err(ModelError::PodcastNotSelected);
        }
        let pod = &self.podcast.podcasts[p];
        let ghost tracker = texts(self.download_tracker@);
        let mut episodes: Vec<EpData> = Vec::new();
        match index {
            Some(i) => {
                if i >= pod.episodes.len() {
                    return Err(ModelError::EpisodeNotSelected);
                }
                let ep = &pod.episodes[i];
                if ep.path.is_none() && !holds_text(&self.download_tracker, ep.url.as_str()) {
                    episodes.push(ep_data_of(ep));
                }
            },
            None => {
                let mut k: usize = 0;
                assert(pod.episodes@.take(0) =~= Seq::<Episode>::empty());
                while k < pod.episodes.len()
                    invariant
                        k <= pod.episodes@.len(),
                        tracker == texts(self.download_tracker@),
                        episodes@.len() == downloads_of(pod.episodes@.take(k as int), tracker).len(),
                        forall|j: int|
                            0 <= j < episodes@.len() ==> is_data_of(
                                #[trigger] episodes@[j],
                                downloads_of(pod.episodes@.take(k as int), tracker)[j],
                            ),
                    decreases pod.episodes@.len() - k,
                {
                    assert(pod.episodes@.take(k + 1).drop_last() =~= pod.episodes@.take(k as int));
                    assert(pod.episodes@.take(k + 1).last() == pod.episodes@[k as int]);
                    let ep = &pod.episodes[k];
                    if ep.path.is_none() && !holds_text(&self.download_tracker, ep.url.as_str()) {
                        episodes.push(ep_data_of(ep));
                    }
                    k += 1;
                }
                assert(pod.episodes@.take(pod.episodes@.len() as int) =~= pod.episodes@);
            },
        }
        let dir_name = sanitize(pod.title.as_str(), true, true, "");
        Ok(Some(DownloadPlan { dir_name, episodes }))
    }

    /// The feeds to fetch again: that of the podcast at `index`, or those of
    /// all podcasts, in their order, where no index is given. No feeds where
    /// an index is given and there are no podcasts; an error where there is
    /// no podcast at the index.
    pub fn podcast_refresh_feeds(&self, index: Option<usize>) -> (r: Result<
        Vec<PodcastFeed>,
        ModelError,
    >)
        ensures
            match index {
                Some(i) => if self.podcast.podcasts@.len() == 0 {
                    r is Ok && r->Ok_0@.len() == 0
                } else if i < self.podcast.podcasts@.len() {
                    r is Ok && r->Ok_0@ == seq![feed_of(self.podcast.podcasts@[i as int])]
                } else {
                    r == Err::<Vec<PodcastFeed>, ModelError>(ModelError::PodcastNotSelected)
                },
                None => r is Ok && r->Ok_0@ == Seq::new(
                    self.podcast.podcasts@.len(),
                    |k: int| feed_of(self.podcast.podcasts@[k]),
                ),
            },
    {
        let mut feeds: Vec<PodcastFeed> = Vec::new();
        match index {
            Some(i) => {
                if self.podcast.podcasts.len() == 0 {
                    return Ok(feeds);
                }
                if i >= self.podcast.podcasts.len() {
                    return Err(ModelError::PodcastNotSelected);
                }
                let pod = &self.podcast.podcasts[i];
                feeds.push(PodcastFeed::new(Some(pod.id), pod.url.clone(), Some(pod.title.clone())));
                assert(feeds@ =~= seq![feed_of(self.podcast.podcasts@[i as int])]);
            },
            None => {
                let mut k: usize = 0;
                while k < self.podcast.podcasts.len()
                    invariant
                        k <= self.podcast.podcasts@.len(),
                        feeds@.len() == k,
                        forall|j: int|
                            0 <= j < k ==> #[trigger] feeds@[j] == feed_of(self.podcast.podcasts@[j]),
                    decreases self.podcast.podcasts@.len() - k,
                {
                    let pod = &self.podcast.podcasts[k];
                    feeds.push(
                        PodcastFeed::new(Some(pod.id), pod.url.clone(), Some(pod.title.clone())),
                    );
                    k += 1;
                }
                assert(feeds@ =~= Seq::new(
                    self.podcast.podcasts@.len(),
                    |k: int| feed_of(self.podcast.podcasts@[k]),
                ));
            },
        }
        Ok(feeds)
    }

    /// The tracks of the value `val` of the criterion `criteria`. For a
    /// playlist, `val` is the playlist's path and `playlist` holds its
    /// entries where they could be read; the tracks are the rows of the
    /// entries, in the playlist's order, and there are none to give where
    /// the entries could not be read. For the other criteria the tracks are
    /// the rows that hold `val`, in the order of their names.
    pub fn database_get_tracks_by_criteria(
        &self,
        criteria: SearchCriteria,
        val: &str,
        playlist: Option<&Vec<String>>,
    ) -> (r: Option<Vec<TrackDB>>)
        ensures
            criteria == SearchCriteria::Playlist ==> match playlist {
                Some(entries) => r is Some && r->0@ == playlist_rows(self.db@, texts(entries@)),
                None => r is None,
            },
            criteria != SearchCriteria::Playlist ==> r is Some && crate::library::is_listing(
                r->0@,
                crate::library::matching(self.db@, criteria, val@),
            ),
            match r {
                Some(rows) => tracks_by(self.db@, criteria, val@, entry_texts(playlist)) == Some(
                    rows@,
                ),
                None => tracks_by(self.db@, criteria, val@, entry_texts(playlist)) is None,
            },
    {
        match criteria {
            SearchCriteria::Playlist => match playlist {
                Some(entries) => Some(self.db.tracks_of_playlist(entries)),
                None => None,
            },
            _ => match self.db.get_record_by_criteria(val, &criteria) {
                Ok(rows) => Some(rows),
                Err(_) => None,
            },
        }
    }

    /// Shows the tracks of the search result at `index`: empties the list of
    /// tracks, then fills it with the tracks of that result. The list stays
    /// empty where there is no result at `index` or its tracks cannot be
    /// had.
    pub fn database_update_search_tracks(&mut self, index: usize, playlist: Option<&Vec<String>>)
        ensures
            final(self).podcast == old(self).podcast,
            final(self).db == old(self).db,
            final(self).download_tracker == old(self).download_tracker,
            final(self).dw.criteria == old(self).dw.criteria,
            final(self).dw.search_results == old(self).dw.search_results,
            index >= old(self).dw.search_results@.len() ==> final(self).dw.search_tracks@.len()
                == 0,
            index < old(self).dw.search_results@.len() ==> {
                let val = old(self).dw.search_results@[index as int]@;
                let c = old(self).dw.criteria;
                if c == SearchCriteria::Playlist {
                    match playlist {
                        Some(entries) => final(self).dw.search_tracks@ == playlist_rows(
                            old(self).db@,
                            texts(entries@),
                        ),
                        None => final(self).dw.search_tracks@.len() == 0,
                    }
                } else {
                    crate::library::is_listing(
                        final(self).dw.search_tracks@,
                        crate::library::matching(old(self).db@, c, val),
                    )
                }
            },
    {
        self.dw.search_tracks = Vec::new();
        if index >= self.dw.search_results.len() {
            return ;
        }
        let found = self.database_get_tracks_by_criteria(
            self.dw.criteria,
            self.dw.search_results[index].as_str(),
            playlist,
        );
        match found {
            Some(rows) => {
                self.dw.search_tracks = rows;
            },
            None => {},
        }
    }

    /// The tracks of all search results, result by result, for the caller
    /// to add to the playlist. `playlists` holds, for each result of the
    /// criterion `Playlist`, the entries of that playlist where they could
    /// be read.
    pub fn database_add_all_results(&self, playlists: &Vec<Option<Vec<String>>>) -> (r: Vec<TrackDB>)
        ensures
            r@ == all_tracks_of(
                self.db@,
                self.dw.criteria,
                texts(self.dw.search_results@),
                playlists@,
            ),
    {
        let ghost results = texts(self.dw.search_results@);
        let mut tracks: Vec<TrackDB> = Vec::new();
        let mut i: usize = 0;
        assert(results.take(0) =~= Seq::<Seq<char>>::empty());
        while i < self.dw.search_results.len()
            invariant
                i <= self.dw.search_results@.len(),
                results == texts(self.dw.search_results@),
                tracks@ == all_tracks_of(
                    self.db@,
                    self.dw.criteria,
                    results.take(i as int),
                    playlists@,
                ),
            decreases self.dw.search_results@.len() - i,
        {
            assert(results.take(i + 1).drop_last() =~= results.take(i as int));
            assert(results.take(i + 1).last() == self.dw.search_results@[i as int]@);
            let entries: Option<&Vec<String>> = if i < playlists.len() {
                match &playlists[i] {
                    Some(e) => Some(e),
                    None => None,
                }
            } else {
                None
            };
            match self.database_get_tracks_by_criteria(
                self.dw.criteria,
                self.dw.search_results[i].as_str(),
                entries,
            ) {
                Some(rows) => {
                    let mut rows = rows;
                    tracks.append(&mut rows);
                },
                None => {},
            }
            i += 1;
        }
        assert(results.take(self.dw.search_results@.len() as int) =~= results);
        tracks
    }

    /// Shows the values of the criterion of the search: for a playlist the
    /// paths `playlists` of the playlists that were found, in their natural
    /// order, for another criterion the values that the catalog holds, each
    /// once, in the order of their pinyin.
    pub fn database_update_search_results(&mut self, playlists: &Vec<String>)
        ensures
            final(self).podcast == old(self).podcast,
            final(self).db == old(self).db,
            final(self).download_tracker == old(self).download_tracker,
            final(self).dw.criteria == old(self).dw.criteria,
            final(self).dw.search_tracks == old(self).dw.search_tracks,
            old(self).dw.criteria == SearchCriteria::Playlist ==> texts(
                final(self).dw.search_results@,
            ) == arranged(
                texts(playlists@),
                crate::collation::collated(texts(playlists@), playlists@.len() as int),
            ),
            old(self).dw.criteria != SearchCriteria::Playlist ==> crate::library::is_value_listing(
                texts(final(self).dw.search_results@),
                crate::library::distinct_values(old(self).db@, old(self).dw.criteria),
            ),
    {
        match self.dw.criteria {
            SearchCriteria::Playlist => {
                let order = crate::collation::collate(playlists);
                let ghost names = texts(playlists@);
                let ghost arrangement = crate::collation::indices(order@);
                let mut out: Vec<String> = Vec::new();
                let mut p: usize = 0;
                assert forall|q: int| 0 <= q < order@.len() implies 0 <= #[trigger] order@[q]
                    < playlists@.len() by {
                    assert(arrangement[q] == order@[q]);
                }
                while p < order.len()
                    invariant
                        p <= order@.len(),
                        forall|q: int|
                            0 <= q < order@.len() ==> 0 <= #[trigger] order@[q] < playlists@.len(),
                        out@.len() == p,
                        forall|q: int|
                            0 <= q < p ==> (#[trigger] out@[q])@ == playlists@[order@[q] as int]@,
                    decreases order@.len() - p,
                {
                    out.push(playlists[order[p]].clone());
                    p += 1;
                }
                assert(texts(out@) =~= arranged(names, arrangement)) by {
                    assert forall|q: int| 0 <= q < out@.len() implies texts(out@)[q] == arranged(
                        names,
                        arrangement,
                    )[q] by {
                        assert(arrangement[q] == order@[q]);
                    }
                }
                self.dw.search_results = out;
            },
            _ => {
                match self.db.get_criterias(&self.dw.criteria) {
                    Ok(values) => {
                        self.dw.search_results = values;
                    },
                    Err(_) => {},
                }
            },
        }
    }

    /// Forgets the file of the episode at `ep_index` of the selected podcast
    /// and gives the episode's id and the file's path, for the caller to
    /// delete the file and to tell the store. `None` where there are no
    /// podcasts or the episode has no file; an error, with nothing changed,
    /// where the selected podcast or the episode is missing.
    pub fn episode_delete_file(&mut self, ep_index: usize) -> (r: Result<
        Option<(i64, String)>,
        ModelError,
    >)
        ensures
            final(self).dw == old(self).dw,
            final(self).db == old(self).db,
            final(self).download_tracker == old(self).download_tracker,
            final(self).podcast.podcasts_index == old(self).podcast.podcasts_index,
            old(self).podcast.podcasts@.len() == 0 ==> r == Ok::<Option<(i64, String)>, ModelError>(
                None,
            ) && final(self).podcast == old(self).podcast,
            old(self).podcast.podcasts@.len() > 0 ==> {
                let p = old(self).podcast.podcasts_index as int;
                if p >= old(self).podcast.podcasts@.len() {
                    r == Err::<Option<(i64, String)>, ModelError>(ModelError::PodcastNotSelected)
                        && final(self).podcast == old(self).podcast
                } else if ep_index >= old(self).podcast.podcasts@[p].episodes@.len() {
                    r == Err::<Option<(i64, String)>, ModelError>(ModelError::EpisodeNotSelected)
                        && final(self).podcast == old(self).podcast
                } else {
                    let ep = old(self).podcast.podcasts@[p].episodes@[ep_index as int];
                    &&& r is Ok
                    &&& match ep.path {
                        Some(path) => r->Ok_0 == Some((ep.id, path)),
                        None => r->Ok_0 is None,
                    }
                    &&& final(self).podcast.podcasts@ == old(self).podcast.podcasts@.update(
                        p,
                        Podcast {
                            episodes: final(self).podcast.podcasts@[p].episodes,
                            ..old(self).podcast.podcasts@[p]
                        },
                    )
                    &&& final(self).podcast.podcasts@[p].episodes@ == old(
                        self,
                    ).podcast.podcasts@[p].episodes@.update(
                        ep_index as int,
                        Episode { path: None, ..ep },
                    )
                }
            },
    {
        if self.podcast.podcasts.len() == 0 {
            return Ok(None);
        }
        let p = self.podcast.podcasts_index;
        if p >= self.podcast.podcasts.len() {
            return Err(ModelError::PodcastNotSelected);
        }
        if ep_index >= self.podcast.podcasts[p].episodes.len() {
            return Err(ModelError::EpisodeNotSelected);
        }
        let id = self.podcast.podcasts[p].episodes[ep_index].id;
        let mut path: Option<String> = None;
        core::mem::swap(&mut path, &mut self.podcast.podcasts[p].episodes[ep_index].path);
        assert(self.podcast.podcasts@ =~= old(self).podcast.podcasts@.update(
            p as int,
            Podcast {
                episodes: self.podcast.podcasts@[p as int].episodes,
                ..old(self).podcast.podcasts@[p as int]
            },
        ));
        assert(self.podcast.podcasts@[p as int].episodes@ =~= old(
            self,
        ).podcast.podcasts@[p as int].episodes@.update(
            ep_index as int,
            Episode {
                path: None,
                ..old(self).podcast.podcasts@[p as int].episodes@[ep_index as int]
            },
        ));
        match path {
            Some(path) => Ok(Some((id, path))),
            None => Ok(None),
        }
    }

    /// The paths of the files of the podcast at `pod_index`, for the caller
    /// to delete, or the error `PodcastNotSelected` where there is no such
    /// podcast.
    pub fn podcast_file_paths(&self, pod_index: usize) -> (r: Result<Vec<String>, ModelError>)
        ensures
            pod_index >= self.podcast.podcasts@.len() ==> r == Err::<Vec<String>, ModelError>(
                ModelError::PodcastNotSelected,
            ),
            pod_index < self.podcast.podcasts@.len() ==> r is Ok && texts(r->Ok_0@) == paths_of(
                self.podcast.podcasts@[pod_index as int].episodes@,
            ),
    {
        if pod_index >= self.podcast.podcasts.len() {
            return Err(ModelError::PodcastNotSelected);
        }
        let eps = &self.podcast.podcasts[pod_index].episodes;
        let mut out: Vec<String> = Vec::new();
        let mut e: usize = 0;
        assert(eps@.take(0) =~= Seq::<Episode>::empty());
        assert(texts(out@) =~= paths_of(eps@.take(0)));
        while e < eps.len()
            invariant
                e <= eps@.len(),
                texts(out@) == paths_of(eps@.take(e as int)),
            decreases eps@.len() - e,
        {
            assert(eps@.take(e + 1).drop_last() =~= eps@.take(e as int));
            assert(eps@.take(e + 1).last() == eps@[e as int]);
            match &eps[e].path {
                Some(path) => {
                    let ghost before = texts(out@);
                    out.push(path.clone());
                    assert(texts(out@) =~= before.push(path@));
                },
                None => {},
            }
            e += 1;
        }
        assert(eps@.take(eps@.len() as int) =~= eps@);
        Ok(out)
    }

    /// Takes note that the files at the paths `removed` are gone from the
    /// disk: the episodes of the podcast at `pod_index` whose files they
    /// were lose their path. Gives the ids of those episodes for the store,
    /// and tells whether no episode of the podcast has a file left. The
    /// error `PodcastNotSelected` comes, with nothing changed, where there is
    /// no such podcast.
    pub fn podcast_delete_files(&mut self, pod_index: usize, removed: &Vec<String>) -> (r: Result<
        FilesRemoved,
        ModelError,
    >)
        ensures
            final(self).dw == old(self).dw,
            final(self).db == old(self).db,
            final(self).download_tracker == old(self).download_tracker,
            final(self).podcast.podcasts_index == old(self).podcast.podcasts_index,
            pod_index >= old(self).podcast.podcasts@.len() ==> r == Err::<FilesRemoved, ModelError>(
                ModelError::PodcastNotSelected,
            ) && final(self).podcast == old(self).podcast,
            pod_index < old(self).podcast.podcasts@.len() ==> {
                let before = old(self).podcast.podcasts@[pod_index as int].episodes@;
                let after = final(self).podcast.podcasts@[pod_index as int].episodes@;
                &&& r is Ok
                &&& r->Ok_0.ids@ == removed_ids(before, texts(removed@))
                &&& r->Ok_0.all == (forall|j: int|
                    0 <= j < after.len() ==> (#[trigger] after[j]).path is None)
                &&& final(self).podcast.podcasts@ == old(self).podcast.podcasts@.update(
                    pod_index as int,
                    Podcast {
                        episodes: final(self).podcast.podcasts@[pod_index as int].episodes,
                        ..old(self).podcast.podcasts@[pod_index as int]
                    },
                )
                &&& after.len() == before.len()
                &&& forall|j: int|
                    0 <= j < before.len() ==> #[trigger] after[j] == without_file(
                        before[j],
                        texts(removed@),
                    )
            },
    {
        if pod_index >= self.podcast.podcasts.len() {
            return Err(ModelError::PodcastNotSelected);
        }
        let ghost before = self.podcast.podcasts@[pod_index as int].episodes@;
        let ghost gone = texts(removed@);
        let mut ids: Vec<i64> = Vec::new();
        let mut all = true;
        let mut j: usize = 0;
        assert(before.take(0) =~= Seq::<Episode>::empty());
        while j < self.podcast.podcasts[pod_index].episodes.len()
            invariant
                pod_index < self.podcast.podcasts@.len(),
                self.podcast.podcasts@.len() == old(self).podcast.podcasts@.len(),
                self.podcast.podcasts_index == old(self).podcast.podcasts_index,
                self.dw == old(self).dw,
                self.db == old(self).db,
                self.download_tracker == old(self).download_tracker,
                before == old(self).podcast.podcasts@[pod_index as int].episodes@,
                gone == texts(removed@),
                self.podcast.podcasts@ == old(self).podcast.podcasts@.update(
                    pod_index as int,
                    Podcast {
                        episodes: self.podcast.podcasts@[pod_index as int].episodes,
                        ..old(self).podcast.podcasts@[pod_index as int]
                    },
                ),
                self.podcast.podcasts@[pod_index as int].episodes@.len() == before.len(),
                j <= before.len(),
                ids@ == removed_ids(before.take(j as int), gone),
                all == (forall|k: int|
                    0 <= k < j ==> (#[trigger] self.podcast.podcasts@[pod_index as int].episodes@[k]).path
                        is None),
                forall|k: int|
                    0 <= k < j ==> #[trigger] self.podcast.podcasts@[pod_index as int].episodes@[k]
                        == without_file(before[k], gone),
                forall|k: int|
                    j <= k < before.len() ==> #[trigger] self.podcast.podcasts@[pod_index as int].episodes@[k]
                        == before[k],
            decreases before.len() - j,
        {
            assert(before.take(j + 1).drop_last() =~= before.take(j as int));
            assert(before.take(j + 1).last() == before[j as int]);
            let ghost eps_before = self.podcast.podcasts@[pod_index as int].episodes@;
            let ghost all_before = all;
            let is_gone = match &self.podcast.podcasts[pod_index].episodes[j].path {
                Some(path) => holds_text(removed, path.as_str()),
                None => false,
            };
            if is_gone {
                ids.push(self.podcast.podcasts[pod_index].episodes[j].id);
                self.podcast.podcasts[pod_index].episodes[j].path = None;
            } else if self.podcast.podcasts[pod_index].episodes[j].path.is_some() {
                all = false;
            }
            assert(self.podcast.podcasts@ =~= old(self).podcast.podcasts@.update(
                pod_index as int,
                Podcast {
                    episodes: self.podcast.podcasts@[pod_index as int].episodes,
                    ..old(self).podcast.podcasts@[pod_index as int]
                },
            ));
            proof {
                let eps = self.podcast.podcasts@[pod_index as int].episodes@;
                assert forall|k: int| 0 <= k < j implies #[trigger] eps[k] == eps_before[k] by {}
                assert(eps[j as int] == without_file(before[j as int], gone));
                if all {
                    assert forall|k: int| 0 <= k < j + 1 implies (#[trigger] eps[k]).path is None by {
                        if k < j {
                            assert(eps[k] == eps_before[k]);
                        }
                    }
                } else if all_before {
                    assert(eps[j as int].path is Some);
                } else {
                    let k = choose|k: int| 0 <= k < j && !((#[trigger] eps_before[k]).path is None);
                    assert(eps[k] == eps_before[k]);
                }
            }
            j += 1;
        }
        assert(before.take(before.len() as int) =~= before);
        Ok(FilesRemoved { ids, all })
    }

    /// The indices of the podcasts whose title holds `input`, whatever the
    /// case, in rising order.
    pub fn podcast_update_search_podcast(&self, input: &str) -> (r: Vec<usize>)
        ensures
            forall|k: int|
                0 <= k < r@.len() ==> (#[trigger] r@[k]) < self.podcast.podcasts@.len()
                    && title_matches(self.podcast.podcasts@[r@[k] as int].title@, input@),
            forall|k: int, l: int| 0 <= k < l < r@.len() ==> #[trigger] r@[k] < #[trigger] r@[l],
            forall|i: int|
                0 <= i < self.podcast.podcasts@.len() && title_matches(
                    (#[trigger] self.podcast.podcasts@[i]).title@,
                    input@,
                ) ==> r@.contains(i as usize),
    {
        let search = pattern_for(input);
        let mut out: Vec<usize> = Vec::new();
        let mut i: usize = 0;
        while i < self.podcast.podcasts.len()
            invariant
                i <= self.podcast.podcasts@.len(),
                search@ == search_pattern(input@),
                forall|k: int|
                    0 <= k < out@.len() ==> (#[trigger] out@[k]) < i && title_matches(
                        self.podcast.podcasts@[out@[k] as int].title@,
                        input@,
                    ),
                forall|k: int, l: int|
                    0 <= k < l < out@.len() ==> #[trigger] out@[k] < #[trigger] out@[l],
                forall|j: int|
                    0 <= j < i && title_matches(
                        (#[trigger] self.podcast.podcasts@[j]).title@,
                        input@,
                    ) ==> out@.contains(j as usize),
            decreases self.podcast.podcasts@.len() - i,
        {
            let ghost before = out@;
            let lower = self.podcast.podcasts[i].title.as_str().to_lowercase();
            if wild_match(search.as_str(), lower.as_str()) {
                out.push(i);
                assert(out@[out@.len() - 1] == i);
            }
            assert forall|j: int|
                0 <= j < i + 1 && title_matches(
                    (#[trigger] self.podcast.podcasts@[j]).title@,
                    input@,
                ) implies out@.contains(j as usize) by {
                if j < i {
                    let k = choose|k: int| 0 <= k < before.len() && before[k] == j as usize;
                    assert(out@[k] == j as usize);
                }
            }
            i += 1;
        }
        out
    }

    /// The places of the episodes whose title holds `input`, whatever the
    /// case, podcast by podcast: for each the index of its podcast and its
    /// index among that podcast's episodes.
    pub fn podcast_update_search_episode(&self, input: &str) -> (r: Vec<(usize, usize)>)
        ensures
            forall|k: int|
                0 <= k < r@.len() ==> (#[trigger] r@[k]).0 < self.podcast.podcasts@.len() && r@[k].1
                    < self.podcast.podcasts@[r@[k].0 as int].episodes@.len() && title_matches(
                    self.podcast.podcasts@[r@[k].0 as int].episodes@[r@[k].1 as int].title@,
                    input@,
                ),
            forall|k: int, l: int|
                0 <= k < l < r@.len() ==> (#[trigger] r@[k]).0 < (#[trigger] r@[l]).0 || (r@[k].0
                    == r@[l].0 && r@[k].1 < r@[l].1),
            forall|p: int, e: int|
                0 <= p < self.podcast.podcasts@.len() && 0 <= e
                    < self.podcast.podcasts@[p].episodes@.len() && title_matches(
                    (#[trigger] self.podcast.podcasts@[p].episodes@[e]).title@,
                    input@,
                ) ==> r@.contains((p as usize, e as usize)),
    {
        let search = pattern_for(input);
        let mut out: Vec<(usize, usize)> = Vec::new();
        let mut p: usize = 0;
        while p < self.podcast.podcasts.len()
            invariant
                p <= self.podcast.podcasts@.len(),
                search@ == search_pattern(input@),
                forall|k: int|
                    0 <= k < out@.len() ==> (#[trigger] out@[k]).0 < p && out@[k].1
                        < self.podcast.podcasts@[out@[k].0 as int].episodes@.len() && title_matches(
                        self.podcast.podcasts@[out@[k].0 as int].episodes@[out@[k].1 as int].title@,
                        input@,
                    ),
                forall|k: int, l: int|
                    0 <= k < l < out@.len() ==> (#[trigger] out@[k]).0 < (#[trigger] out@[l]).0 || (
                    out@[k].0 == out@[l].0 && out@[k].1 < out@[l].1),
                forall|q: int, e: int|
                    0 <= q < p && 0 <= e < self.podcast.podcasts@[q].episodes@.len()
                        && title_matches(
                        (#[trigger] self.podcast.podcasts@[q].episodes@[e]).title@,
                        input@,
                    ) ==> out@.contains((q as usize, e as usize)),
            decreases self.podcast.podcasts@.len() - p,
        {
            let mut e: usize = 0;
            while e < self.podcast.podcasts[p].episodes.len()
                invariant
                    p < self.podcast.podcasts@.len(),
                    e <= self.podcast.podcasts@[p as int].episodes@.len(),
                    search@ == search_pattern(input@),
                    forall|k: int|
                        0 <= k < out@.len() ==> ((#[trigger] out@[k]).0 < p || (out@[k].0 == p
                            && out@[k].1 < e)) && out@[k].1
                            < self.podcast.podcasts@[out@[k].0 as int].episodes@.len()
                            && title_matches(
                            self.podcast.podcasts@[out@[k].0 as int].episodes@[out@[k].1 as int].title@,
                            input@,
                        ),
                    forall|k: int, l: int|
                        0 <= k < l < out@.len() ==> (#[trigger] out@[k]).0 < (#[trigger] out@[l]).0
                            || (out@[k].0 == out@[l].0 && out@[k].1 < out@[l].1),
                    forall|q: int, j: int|
                        0 <= q < p && 0 <= j < self.podcast.podcasts@[q].episodes@.len()
                            && title_matches(
                            (#[trigger] self.podcast.podcasts@[q].episodes@[j]).title@,
                            input@,
                        ) ==> out@.contains((q as usize, j as usize)),
                    forall|j: int|
                        0 <= j < e && title_matches(
                            (#[trigger] self.podcast.podcasts@[p as int].episodes@[j]).title@,
                            input@,
                        ) ==> out@.contains((p, j as usize)),
                decreases self.podcast.podcasts@[p as int].episodes@.len() - e,
            {
                let ghost before = out@;
                let lower = self.podcast.podcasts[p].episodes[e].title.as_str().to_lowercase();
                if wild_match(search.as_str(), lower.as_str()) {
                    out.push((p, e));
                    assert(out@[out@.len() - 1] == (p, e));
                }
                assert forall|q: int, j: int|
                    0 <= q < p && 0 <= j < self.podcast.podcasts@[q].episodes@.len()
                        && title_matches(
                        (#[trigger] self.podcast.podcasts@[q].episodes@[j]).title@,
                        input@,
                    ) implies out@.contains((q as usize, j as usize)) by {
                    let k = choose|k: int|
                        0 <= k < before.len() && before[k] == (q as usize, j as usize);
                    assert(out@[k] == (q as usize, j as usize));
                }
                assert forall|j: int|
                    0 <= j < e + 1 && title_matches(
                        (#[trigger] self.podcast.podcasts@[p as int].episodes@[j]).title@,
                        input@,
                    ) implies out@.contains((p, j as usize)) by {
                    if j < e {
                        let k = choose|k: int| 0 <= k < before.len() && before[k] == (p, j as usize);
                        assert(out@[k] == (p, j as usize));
                    }
                }
                e += 1;
            }
            p += 1;
        }
        out
    }

    /// The rows of the list of search results: for each result with a name
    /// to show, its number and the name.
    pub fn database_sync_results(&self) -> (r: Vec<(usize, String)>)
        ensures
            r@.len() == result_rows_of(self.dw.criteria, texts(self.dw.search_results@)).len(),
            forall|k: int|
                0 <= k < r@.len() ==> (#[trigger] r@[k]).0 == k + 1 && r@[k].1@ == result_rows_of(
                    self.dw.criteria,
                    texts(self.dw.search_results@),
                )[k].1 && result_rows_of(self.dw.criteria, texts(self.dw.search_results@))[k].0 == k
                    + 1,
    {
        let ghost results = texts(self.dw.search_results@);
        let ghost c = self.dw.criteria;
        let mut rows: Vec<(usize, String)> = Vec::new();
        let mut i: usize = 0;
        assert(results.take(0) =~= Seq::<Seq<char>>::empty());
        while i < self.dw.search_results.len()
            invariant
                i <= self.dw.search_results@.len(),
                results == texts(self.dw.search_results@),
                c == self.dw.criteria,
                rows@.len() <= i,
                rows@.len() == result_rows_of(c, results.take(i as int)).len(),
                forall|k: int|
                    0 <= k < rows@.len() ==> (#[trigger] rows@[k]).0 == k + 1 && rows@[k].1@
                        == result_rows_of(c, results.take(i as int))[k].1 && result_rows_of(
                        c,
                        results.take(i as int),
                    )[k].0 == k + 1,
            decreases self.dw.search_results@.len() - i,
        {
            assert(results.take(i + 1).drop_last() =~= results.take(i as int));
            assert(results.take(i + 1).last() == self.dw.search_results@[i as int]@);
            let ghost listed = result_rows_of(c, results.take(i as int));
            let ghost old_rows = rows@;
            let name = display_name(self.dw.criteria, self.dw.search_results[i].as_str());
            if !name.as_str().is_empty() {
                let number = rows.len() + 1;
                rows.push((number, name));
            }
            proof {
                let now = result_rows_of(c, results.take(i + 1));
                assert forall|k: int| 0 <= k < rows@.len() implies (#[trigger] rows@[k]).0 == k + 1
                    && rows@[k].1@ == now[k].1 && now[k].0 == k + 1 by {
                    if k < old_rows.len() {
                        assert(rows@[k] == old_rows[k]);
                        assert(now[k] == listed[k]);
                    }
                }
            }
            i += 1;
        }
        assert(results.take(self.dw.search_results@.len() as int) =~= results);
        rows
    }

    /// The rows of the list of tracks: for each track of the search its
    /// title, or the name of its file where it has no title.
    pub fn database_sync_tracks(&self) -> (r: Vec<String>)
        ensures
            r@.len() == self.dw.search_tracks@.len(),
            forall|k: int|
                0 <= k < r@.len() ==> (#[trigger] r@[k])@ == (if self.dw.search_tracks@[k].title@.len()
                    > 0 {
                    self.dw.search_tracks@[k].title@
                } else {
                    self.dw.search_tracks@[k].name@
                }),
    {
        let mut rows: Vec<String> = Vec::new();
        let mut i: usize = 0;
        while i < self.dw.search_tracks.len()
            invariant
                i <= self.dw.search_tracks@.len(),
                rows@.len() == i,
                forall|k: int|
                    0 <= k < i ==> (#[trigger] rows@[k])@ == (if self.dw.search_tracks@[k].title@.len()
                        > 0 {
                        self.dw.search_tracks@[k].title@
                    } else {
                        self.dw.search_tracks@[k].name@
                    }),
            decreases self.dw.search_tracks@.len() - i,
        {
            let track = &self.dw.search_tracks[i];
            if !track.title.as_str().is_empty() {
                rows.push(track.title.clone());
            } else {
                rows.push(track.name.clone());
            }
            i += 1;
        }
        rows
    }

    /// The rows of the list of feeds: for each podcast its title with the
    /// numbers of its unplayed episodes and of all its episodes, set off
    /// where an episode is not played.
    pub fn podcast_sync_feeds_and_episodes(&self) -> (r: Vec<ListRow>)
        ensures
            r@.len() == self.podcast.podcasts@.len(),
            forall|k: int|
                0 <= k < r@.len() ==> (#[trigger] r@[k]).text@ == feed_row_text(
                    self.podcast.podcasts@[k],
                ) && r@[k].marked == (unplayed(self.podcast.podcasts@[k].episodes@) > 0),
    {
        let mut rows: Vec<ListRow> = Vec::new();
        let mut i: usize = 0;
        while i < self.podcast.podcasts.len()
            invariant
                i <= self.podcast.podcasts@.len(),
                rows@.len() == i,
                forall|k: int|
                    0 <= k < i ==> (#[trigger] rows@[k]).text@ == feed_row_text(
                        self.podcast.podcasts@[k],
                    ) && rows@[k].marked == (unplayed(self.podcast.podcasts@[k].episodes@) > 0),
            decreases self.podcast.podcasts@.len() - i,
        {
            let pod = &self.podcast.podcasts[i];
            let mut new: usize = 0;
            let mut e: usize = 0;
            assert(pod.episodes@.take(0) =~= Seq::<Episode>::empty());
            while e < pod.episodes.len()
                invariant
                    e <= pod.episodes@.len(),
                    new == unplayed(pod.episodes@.take(e as int)),
                    new <= e,
                decreases pod.episodes@.len() - e,
            {
                assert(pod.episodes@.take(e + 1).drop_last() =~= pod.episodes@.take(e as int));
                assert(pod.episodes@.take(e + 1).last() == pod.episodes@[e as int]);
                if !pod.episodes[e].played {
                    new += 1;
                }
                e += 1;
            }
            assert(pod.episodes@.take(pod.episodes@.len() as int) =~= pod.episodes@);
            let mut text = pod.title.clone();
            text.push(' ');
            text.push('(');
            crate::text::push_decimal(&mut text, new as u64);
            text.push('/');
            crate::text::push_decimal(&mut text, pod.episodes.len() as u64);
            text.push(')');
            assert(text@ =~= feed_row_text(*pod));
            rows.push(ListRow { text, marked: new > 0 });
            i += 1;
        }
        rows
    }

    /// The rows of the list of episodes of the selected podcast: for each
    /// episode its title, behind `[D]` where its file is on disk, set off
    /// where it is played. No rows where there are no podcasts; the error
    /// `PodcastNotSelected` where the selected podcast is missing.
    pub fn podcast_sync_episodes(&self) -> (r: Result<Vec<ListRow>, ModelError>)
        ensures
            self.podcast.podcasts@.len() == 0 ==> r is Ok && r->Ok_0@.len() == 0,
            self.podcast.podcasts@.len() > 0 && self.podcast.podcasts_index
                >= self.podcast.podcasts@.len() ==> r == Err::<Vec<ListRow>, ModelError>(
                ModelError::PodcastNotSelected,
            ),
            self.podcast.podcasts_index < self.podcast.podcasts@.len() ==> {
                let eps = self.podcast.podcasts@[self.podcast.podcasts_index as int].episodes@;
                &&& r is Ok
                &&& r->Ok_0@.len() == eps.len()
                &&& forall|k: int|
                    0 <= k < eps.len() ==> (#[trigger] r->Ok_0@[k]).text@ == episode_row_text(eps[k])
                        && r->Ok_0@[k].marked == eps[k].played
            },
    {
        let mut rows: Vec<ListRow> = Vec::new();
        if self.podcast.podcasts.len() == 0 {
            return Ok(rows);
        }
        let p = self.podcast.podcasts_index;
        if p >= self.podcast.podcasts.len() {
            return Err(ModelError::PodcastNotSelected);
        }
        let eps = &self.podcast.podcasts[p].episodes;
        let mut i: usize = 0;
        while i < eps.len()
            invariant
                i <= eps@.len(),
                rows@.len() == i,
                forall|k: int|
                    0 <= k < i ==> (#[trigger] rows@[k]).text@ == episode_row_text(eps@[k])
                        && rows@[k].marked == eps@[k].played,
            decreases eps@.len() - i,
        {
            let ep = &eps[i];
            let mut text = String::new();
            if ep.path.is_some() {
                text.push('[');
                text.push('D');
                text.push(']');
                text.push(' ');
            }
            text.append(ep.title.as_str());
            assert(text@ =~= episode_row_text(*ep));
            rows.push(ListRow { text, marked: ep.played });
            i += 1;
        }
        Ok(rows)
    }

    /// Tells whether the artist, the title or the album of `record` has the
    /// pattern `search`.
    pub fn match_record<T: Matchable>(record: &T, search: &str) -> (r: bool)
        ensures
            r == record_matches(record, search@),
    {
        let artist_match = field_match(record.meta_artist(), search);
        let title_match = field_match(record.meta_title(), search);
        let album_match = field_match(record.meta_album(), search);
        artist_match || title_match || album_match
    }

    /// The indices of the records of `indexable_songs` whose artist, title
    /// or album holds `input`, whatever the case, in rising order.
    pub fn update_search<T: Matchable>(indexable_songs: &Vec<T>, input: &str) -> (r: Vec<usize>)
        ensures
            forall|k: int|
                0 <= k < r@.len() ==> (#[trigger] r@[k]) < indexable_songs@.len() && record_matches(
                    &indexable_songs@[r@[k] as int],
                    search_pattern(input@),
                ),
            forall|k: int, l: int| 0 <= k < l < r@.len() ==> #[trigger] r@[k] < #[trigger] r@[l],
            forall|i: int|
                0 <= i < indexable_songs@.len() && record_matches(
                    &#[trigger] indexable_songs@[i],
                    search_pattern(input@),
                ) ==> r@.contains(i as usize),
    {
        let search = pattern_for(input);
        let mut out: Vec<usize> = Vec::new();
        let mut i: usize = 0;
        while i < indexable_songs.len()
            invariant
                i <= indexable_songs@.len(),
                search@ == search_pattern(input@),
                forall|k: int|
                    0 <= k < out@.len() ==> (#[trigger] out@[k]) < i && record_matches(
                        &indexable_songs@[out@[k] as int],
                        search@,
                    ),
                forall|k: int, l: int|
                    0 <= k < l < out@.len() ==> #[trigger] out@[k] < #[trigger] out@[l],
                forall|j: int|
                    0 <= j < i && record_matches(&#[trigger] indexable_songs@[j], search@)
                        ==> out@.contains(j as usize),
            decreases indexable_songs@.len() - i,
        {
            let ghost before = out@;
            if Self::match_record(&indexable_songs[i], search.as_str()) {
                out.push(i);
                assert(out@[out@.len() - 1] == i);
            }
            assert forall|j: int|
                0 <= j < i + 1 && record_matches(
                    &#[trigger] indexable_songs@[j],
                    search@,
                ) implies out@.contains(j as usize) by {
                if j < i {
                    let k = choose|k: int| 0 <= k < before.len() && before[k] == j as usize;
                    assert(out@[k] == j as usize);
                }
            }
            i += 1;
        }
        out
    }
}

} // verus!
