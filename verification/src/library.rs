//! The catalog of the music library: one row for each track, looked up by
//! path, listed by artist, album, genre or directory, and kept in step with
//! what is on disk.

use crate::collation::{
    collate, collated, get_pin_yin, in_order, indices, may_follow, pin_yin_of, texts,
};
use crate::player::PlayerTimeUnit;
use vstd::prelude::*;
use vstd::std_specs::convert::FromSpecImpl;
use vstd::string::StringExecFns;

verus! {

/// By what the tracks of the catalog are listed.
#[derive(Debug, Clone, Copy, PartialEq, Eq, Structural)]
pub enum SearchCriteria {
    Artist,
    Album,
    Genre,
    Directory,
    Playlist,
}

/// The name of the criterion `c`.
pub open spec fn criteria_name(c: SearchCriteria) -> Seq<char> {
    match c {
        SearchCriteria::Artist => "artist"@,
        SearchCriteria::Album => "album"@,
        SearchCriteria::Genre => "genre"@,
        SearchCriteria::Directory => "directory"@,
        SearchCriteria::Playlist => "playlist"@,
    }
}

/// The criterion with the number `index`; a number without a criterion of
/// its own stands for `Artist`.
pub open spec fn criteria_of_index(index: usize) -> SearchCriteria {
    if index == 1 {
        SearchCriteria::Album
    } else if index == 2 {
        SearchCriteria::Genre
    } else if index == 3 {
        SearchCriteria::Directory
    } else if index == 4 {
        SearchCriteria::Playlist
    } else {
        SearchCriteria::Artist
    }
}

impl SearchCriteria {
    /// The name of the criterion.
    pub fn as_str(&self) -> (r: &'static str)
        ensures
            r@ == criteria_name(*self),
    {
        match self {
            SearchCriteria::Artist => "artist",
            SearchCriteria::Album => "album",
            SearchCriteria::Genre => "genre",
            SearchCriteria::Directory => "directory",
            SearchCriteria::Playlist => "playlist",
        }
    }

    /// The name of the criterion as a string of its own.
    pub fn to_string(&self) -> (r: String)
        ensures
            r@ == criteria_name(*self),
    {
        String::from_str(self.as_str())
    }
}

impl From<usize> for SearchCriteria {
    fn from(u_index: usize) -> (r: Self) {
        match u_index {
            1 => Self::Album,
            2 => Self::Genre,
            3 => Self::Directory,
            4 => Self::Playlist,
            _ => Self::Artist,
        }
    }
}

impl FromSpecImpl<usize> for SearchCriteria {
    open spec fn obeys_from_spec() -> bool {
        true
    }

    open spec fn from_spec(u_index: usize) -> Self {
        criteria_of_index(u_index)
    }
}

/// One row of the catalog: a track on disk.
#[derive(Debug, Clone, Eq, PartialEq)]
pub struct TrackDB {
    /// The absolute path of the file; no two rows have the same.
    pub file: String,
    /// The name of the file without its extension.
    pub name: String,
    /// The directory that holds the file.
    pub directory: String,
    pub title: String,
    pub artist: String,
    pub album: String,
    pub genre: String,
    pub duration: Option<PlayerTimeUnit>,
    /// When the file was last changed, in seconds since 1970, as it was
    /// read when the row was written.
    pub last_modified: u64,
    /// Where playback of the track stopped last, in seconds.
    pub last_position: u64,
}

/// Why the catalog has no answer.
#[derive(Debug, Clone, Copy, PartialEq, Eq, Structural)]
pub enum CatalogError {
    /// No row has the path that was asked for.
    NotFound,
    /// Rows have no column for the criterion that was asked for.
    NoSuchColumn,
}

impl CatalogError {
    /// The error in words.
    pub fn to_string(&self) -> (r: String)
        ensures
            r@ == match *self {
                CatalogError::NotFound => "Query returned no rows"@,
                CatalogError::NoSuchColumn => "no such column"@,
            },
    {
        match self {
            CatalogError::NotFound => String::from_str("Query returned no rows"),
            CatalogError::NoSuchColumn => String::from_str("no such column"),
        }
    }
}

/// A copy of `row`.
pub fn clone_track(row: &TrackDB) -> (r: TrackDB)
    ensures
        r == *row,
{
    TrackDB {
        file: row.file.clone(),
        name: row.name.clone(),
        directory: row.directory.clone(),
        title: row.title.clone(),
        artist: row.artist.clone(),
        album: row.album.clone(),
        genre: row.genre.clone(),
        duration: row.duration,
        last_modified: row.last_modified,
        last_position: row.last_position,
    }
}

/// What `row` holds in the column of the criterion `c`. Rows have no column
/// for playlists.
pub open spec fn column(row: TrackDB, c: SearchCriteria) -> Option<Seq<char>> {
    match c {
        SearchCriteria::Artist => Some(row.artist@),
        SearchCriteria::Album => Some(row.album@),
        SearchCriteria::Genre => Some(row.genre@),
        SearchCriteria::Directory => Some(row.directory@),
        SearchCriteria::Playlist => None,
    }
}

/// What `row` holds in the column of the criterion `c`.
pub fn column_of(row: &TrackDB, c: SearchCriteria) -> (r: Option<&String>)
    ensures
        match r {
            Some(s) => column(*row, c) == Some(s@),
            None => column(*row, c) is None,
        },
{
    match c {
        SearchCriteria::Artist => Some(&row.artist),
        SearchCriteria::Album => Some(&row.album),
        SearchCriteria::Genre => Some(&row.genre),
        SearchCriteria::Directory => Some(&row.directory),
        SearchCriteria::Playlist => None,
    }
}

/// Whether no two of `rows` have the same path.
pub open spec fn unique_files(rows: Seq<TrackDB>) -> bool {
    forall|i: int, j: int|
        0 <= i < j < rows.len() ==> (#[trigger] rows[i]).file@ != (#[trigger] rows[j]).file@
}

/// The index of the row of `rows` with the path `file`, or the number of
/// rows where none has it.
pub open spec fn row_index(rows: Seq<TrackDB>, file: Seq<char>) -> int
    decreases rows.len(),
{
    if rows.len() == 0 {
        0
    } else if rows[0].file@ == file {
        0
    } else {
        1 + row_index(rows.skip(1), file)
    }
}

/// `row_index` is the first index at which a row has the path, or the
/// number of rows.
pub proof fn lemma_row_index(rows: Seq<TrackDB>, file: Seq<char>)
    ensures
        0 <= row_index(rows, file) <= rows.len(),
        forall|j: int| 0 <= j < row_index(rows, file) ==> (#[trigger] rows[j]).file@ != file,
        row_index(rows, file) < rows.len() ==> rows[row_index(rows, file)].file@ == file,
    decreases rows.len(),
{
    if rows.len() > 0 && rows[0].file@ != file {
        let tail = rows.skip(1);
        lemma_row_index(tail, file);
        assert forall|j: int| 0 <= j < row_index(rows, file) implies (#[trigger] rows[j]).file@
            != file by {
            if j > 0 {
                assert(tail[j - 1] == rows[j]);
            }
        }
        if row_index(rows, file) < rows.len() {
            assert(tail[row_index(tail, file)] == rows[row_index(rows, file)]);
        }
    }
}

/// An index before which no row has the path and at which one has it, or
/// which is the number of rows, is `row_index`.
pub proof fn lemma_row_index_is(rows: Seq<TrackDB>, file: Seq<char>, k: int)
    requires
        0 <= k <= rows.len(),
        forall|j: int| 0 <= j < k ==> (#[trigger] rows[j]).file@ != file,
        k < rows.len() ==> rows[k].file@ == file,
    ensures
        row_index(rows, file) == k,
{
    lemma_row_index(rows, file);
    let r = row_index(rows, file);
    if r < k {
        assert(rows[r].file@ != file);
    } else if r > k {
        assert(rows[k].file@ != file);
    }
}

/// The rows `rows` with `row` in the place of the row of its path, or at
/// the end where no row has its path.
pub open spec fn upserted(rows: Seq<TrackDB>, row: TrackDB) -> Seq<TrackDB> {
    let i = row_index(rows, row.file@);
    if 0 <= i < rows.len() {
        rows.update(i, row)
    } else {
        rows.push(row)
    }
}

/// The rows `rows` without the row of the path `file`.
pub open spec fn removed(rows: Seq<TrackDB>, file: Seq<char>) -> Seq<TrackDB> {
    let i = row_index(rows, file);
    if 0 <= i < rows.len() {
        rows.remove(i)
    } else {
        rows
    }
}

/// Writing a row and taking one away keep the paths apart.
pub proof fn lemma_unique_kept(rows: Seq<TrackDB>, row: TrackDB, file: Seq<char>)
    requires
        unique_files(rows),
    ensures
        unique_files(upserted(rows, row)),
        unique_files(removed(rows, file)),
{
    lemma_row_index(rows, row.file@);
    lemma_row_index(rows, file);
    let i = row_index(rows, row.file@);
    let u = upserted(rows, row);
    assert forall|a: int, b: int| 0 <= a < b < u.len() implies (#[trigger] u[a]).file@ != (
    #[trigger] u[b]).file@ by {
        if i < rows.len() {
            if a == i {
                assert(rows[i].file@ != rows[b].file@);
            } else if b == i {
                assert(rows[a].file@ != rows[i].file@);
            } else {
                assert(rows[a].file@ != rows[b].file@);
            }
        } else {
            if b == rows.len() {
                assert(rows[a].file@ != row.file@);
            } else {
                assert(rows[a].file@ != rows[b].file@);
            }
        }
    }
    let k = row_index(rows, file);
    let d = removed(rows, file);
    assert forall|a: int, b: int| 0 <= a < b < d.len() implies (#[trigger] d[a]).file@ != (
    #[trigger] d[b]).file@ by {
        if k < rows.len() {
            let a0 = if a < k {
                a
            } else {
                a + 1
            };
            let b0 = if b < k {
                b
            } else {
                b + 1
            };
            assert(d[a] == rows[a0] && d[b] == rows[b0]);
            assert(rows[a0].file@ != rows[b0].file@);
        } else {
            assert(rows[a].file@ != rows[b].file@);
        }
    }
}

/// The rows of `rows` that hold `value` in the column of `c`, in their
/// order.
pub open spec fn matching(rows: Seq<TrackDB>, c: SearchCriteria, value: Seq<char>) -> Seq<TrackDB>
    decreases rows.len(),
{
    if rows.len() == 0 {
        Seq::empty()
    } else if column(rows.last(), c) == Some(value) {
        matching(rows.drop_last(), c, value).push(rows.last())
    } else {
        matching(rows.drop_last(), c, value)
    }
}

/// The names of `rows` in pinyin: what the rows are ordered by.
pub open spec fn name_keys(rows: Seq<TrackDB>) -> Seq<Seq<char>> {
    Seq::new(rows.len(), |i: int| pin_yin_of(rows[i].name@))
}

/// The values that `rows` hold in the column of `c`, each once, in the
/// order in which they first occur.
pub open spec fn distinct_values(rows: Seq<TrackDB>, c: SearchCriteria) -> Seq<Seq<char>>
    decreases rows.len(),
{
    if rows.len() == 0 {
        Seq::empty()
    } else {
        let before = distinct_values(rows.drop_last(), c);
        match column(rows.last(), c) {
            Some(v) => if before.contains(v) {
                before
            } else {
                before.push(v)
            },
            None => before,
        }
    }
}

/// The distinct values hold nothing twice, hold the value of every row, and
/// hold nothing but values of rows.
pub proof fn lemma_distinct_values(rows: Seq<TrackDB>, c: SearchCriteria)
    ensures
        forall|i: int, j: int|
            0 <= i < j < distinct_values(rows, c).len() ==> #[trigger] distinct_values(rows, c)[i]
                != #[trigger] distinct_values(rows, c)[j],
        forall|k: int|
            0 <= k < rows.len() && column(#[trigger] rows[k], c) is Some ==> distinct_values(
                rows,
                c,
            ).contains(column(rows[k], c)->0),
        forall|i: int|
            0 <= i < distinct_values(rows, c).len() ==> exists|k: int|
                0 <= k < rows.len() && column(rows[k], c) == Some(
                    #[trigger] distinct_values(rows, c)[i],
                ),
    decreases rows.len(),
{
    if rows.len() > 0 {
        let front = rows.drop_last();
        let before = distinct_values(front, c);
        let d = distinct_values(rows, c);
        lemma_distinct_values(front, c);
        assert forall|k: int| 0 <= k < rows.len() && column(#[trigger] rows[k], c) is Some implies d.contains(
            column(rows[k], c)->0,
        ) by {
            let v = column(rows[k], c)->0;
            if k < front.len() {
                assert(front[k] == rows[k]);
                let p = choose|p: int| 0 <= p < before.len() && before[p] == v;
                assert(d[p] == v);
            } else {
                if before.contains(v) {
                } else {
                    assert(d[d.len() - 1] == v);
                }
            }
        }
        assert forall|i: int| 0 <= i < d.len() implies exists|k: int|
            0 <= k < rows.len() && column(rows[k], c) == Some(#[trigger] d[i]) by {
            if i < before.len() {
                assert(d[i] == before[i]);
                let k = choose|k: int| 0 <= k < front.len() && column(front[k], c) == Some(before[i]);
                assert(front[k] == rows[k]);
            } else {
                assert(column(rows[rows.len() - 1], c) == Some(d[i]));
            }
        }
        assert forall|i: int, j: int| 0 <= i < j < d.len() implies #[trigger] d[i] != #[trigger] d[j] by {
            if j < before.len() {
                assert(d[i] == before[i] && d[j] == before[j]);
            } else {
                assert(d[i] == before[i]);
            }
        }
    }
}

/// Whether each name of `names` but the first may follow the one before it
/// in the order of their pinyin.
pub open spec fn listed_in_order(names: Seq<Seq<char>>) -> bool {
    forall|p: int, q: int|
        0 <= p && q == p + 1 && q < names.len() ==> may_follow(
            pin_yin_of(#[trigger] names[p]),
            pin_yin_of(#[trigger] names[q]),
        )
}

/// The catalog: its rows, no two of them with the same path.
pub struct Catalog {
    tracks: Vec<TrackDB>,
}

impl View for Catalog {
    type V = Seq<TrackDB>;

    closed spec fn view(&self) -> Seq<TrackDB> {
        self.tracks@
    }
}

impl Catalog {
    #[verifier::type_invariant]
    spec fn paths_are_apart(self) -> bool {
        unique_files(self.tracks@)
    }

    /// A catalog without rows.
    pub fn new() -> (r: Self)
        ensures
            r@.len() == 0,
    {
        Catalog { tracks: Vec::new() }
    }

    /// The index of the row with the path `file`.
    fn find(&self, file: &str) -> (r: Option<usize>)
        ensures
            match r {
                Some(i) => i < self@.len() && i == row_index(self@, file@),
                None => row_index(self@, file@) == self@.len(),
            },
    {
        let mut i: usize = 0;
        while i < self.tracks.len()
            invariant
                i <= self.tracks@.len(),
                forall|j: int| 0 <= j < i ==> (#[trigger] self.tracks@[j]).file@ != file@,
            decreases self.tracks@.len() - i,
        {
            if crate::podcast::same_text(self.tracks[i].file.as_str(), file) {
                proof {
                    lemma_row_index_is(self@, file@, i as int);
                }
                return Some(i);
            }
            i += 1;
        }
        proof {
            lemma_row_index_is(self@, file@, self@.len() as int);
        }
        None
    }

    /// All rows, in the catalog's order.
    pub fn get_all_records(&self) -> (r: Vec<TrackDB>)
        ensures
            r@ == self@,
            unique_files(r@),
    {
        proof {
            use_type_invariant(self);
        }
        let mut out: Vec<TrackDB> = Vec::new();
        let mut i: usize = 0;
        while i < self.tracks.len()
            invariant
                i <= self.tracks@.len(),
                out@ == self.tracks@.take(i as int),
            decreases self.tracks@.len() - i,
        {
            out.push(clone_track(&self.tracks[i]));
            assert(out@ =~= self.tracks@.take(i + 1));
            i += 1;
        }
        assert(self.tracks@.take(self.tracks@.len() as int) =~= self.tracks@);
        out
    }

    /// Writes `row`: in the place of the row of its path where there is one,
    /// else as a new row.
    pub fn upsert(&mut self, row: TrackDB)
        ensures
            final(self)@ == upserted(old(self)@, row),
    {
        proof {
            use_type_invariant(&*self);
            lemma_unique_kept(self@, row, row.file@);
        }
        let mut tracks: Vec<TrackDB> = Vec::new();
        match self.find(row.file.as_str()) {
            Some(i) => {
                let mut k: usize = 0;
                while k < self.tracks.len()
                    invariant
                        k <= self.tracks@.len(),
                        i < self.tracks@.len(),
                        tracks@ == self.tracks@.update(i as int, row).take(k as int),
                    decreases self.tracks@.len() - k,
                {
                    if k == i {
                        tracks.push(clone_track(&row));
                    } else {
                        tracks.push(clone_track(&self.tracks[k]));
                    }
                    assert(tracks@ =~= self.tracks@.update(i as int, row).take(k + 1));
                    k += 1;
                }
                assert(tracks@ =~= self.tracks@.update(i as int, row));
            },
            None => {
                tracks = self.get_all_records();
                tracks.push(row);
            },
        }
        self.tracks = tracks;
    }

    /// Takes the row of the path `file` away, where there is one.
    pub fn delete(&mut self, file: &str)
        ensures
            final(self)@ == removed(old(self)@, file@),
    {
        proof {
            use_type_invariant(&*self);
            lemma_unique_kept(self@, self@[0], file@);
        }
        match self.find(file) {
            Some(i) => {
                let mut tracks = self.get_all_records();
                let _ = tracks.remove(i);
                self.tracks = tracks;
            },
            None => {},
        }
    }

    /// The row of the path `file_path`, or the error `NotFound` where no row
    /// has that path.
    pub fn get_record_by_path(&self, file_path: &str) -> (r: Result<TrackDB, CatalogError>)
        ensures
            match r {
                Ok(row) => row_index(self@, file_path@) < self@.len() && row == self@[row_index(
                    self@,
                    file_path@,
                )] && row.file@ == file_path@,
                Err(e) => e == CatalogError::NotFound && forall|i: int|
                    0 <= i < self@.len() ==> (#[trigger] self@[i]).file@ != file_path@,
            },
    {
        proof {
            lemma_row_index(self@, file_path@);
        }
        match self.find(file_path) {
            Some(i) => Ok(clone_track(&self.tracks[i])),
            None => Err(CatalogError::NotFound),
        }
    }

    /// Where playback of the track at `file_path` stopped last, in seconds,
    /// or the error `NotFound` where no row has that path.
    pub fn get_last_position(&self, file_path: &str) -> (r: Result<u64, CatalogError>)
        ensures
            match r {
                Ok(secs) => row_index(self@, file_path@) < self@.len() && secs == self@[row_index(
                    self@,
                    file_path@,
                )].last_position,
                Err(e) => e == CatalogError::NotFound && forall|i: int|
                    0 <= i < self@.len() ==> (#[trigger] self@[i]).file@ != file_path@,
            },
    {
        proof {
            lemma_row_index(self@, file_path@);
        }
        match self.find(file_path) {
            Some(i) => Ok(self.tracks[i].last_position),
            None => Err(CatalogError::NotFound),
        }
    }

    /// Notes that playback of the track at `file_path` stopped at
    /// `last_position` seconds. Nothing changes where no row has that path.
    pub fn set_last_position(&mut self, file_path: &str, last_position: u64)
        ensures
            row_index(old(self)@, file_path@) >= old(self)@.len() ==> final(self)@ == old(self)@,
            row_index(old(self)@, file_path@) < old(self)@.len() ==> final(self)@ == old(
                self,
            )@.update(
                row_index(old(self)@, file_path@),
                TrackDB { last_position, ..old(self)@[row_index(old(self)@, file_path@)] },
            ),
    {
        proof {
            lemma_row_index(self@, file_path@);
        }
        match self.find(file_path) {
            Some(i) => {
                let mut row = clone_track(&self.tracks[i]);
                row.last_position = last_position;
                proof {
                    lemma_row_index_is(self@, row.file@, i as int);
                }
                self.upsert(row);
            },
            None => {},
        }
    }

    /// The rows that hold `criteria_val` in the column of `criteria`, in the
    /// order of their names in pinyin; the error `NoSuchColumn` for the
    /// criterion `Playlist`, for which rows have no column.
    pub fn get_record_by_criteria(&self, criteria_val: &str, criteria: &SearchCriteria) -> (r:
        Result<Vec<TrackDB>, CatalogError>)
        ensures
            *criteria == SearchCriteria::Playlist ==> r == Err::<Vec<TrackDB>, CatalogError>(
                CatalogError::NoSuchColumn,
            ),
            *criteria != SearchCriteria::Playlist ==> r is Ok && is_listing(
                r->Ok_0@,
                matching(self@, *criteria, criteria_val@),
            ) && r->Ok_0@ == listing_of(matching(self@, *criteria, criteria_val@)),
            r is Ok ==> listed_in_order(Seq::new(r->Ok_0@.len(), |q: int| r->Ok_0@[q].name@)),
            r is Ok ==> forall|q: int|
                0 <= q < r->Ok_0@.len() ==> self@.contains(#[trigger] r->Ok_0@[q]) && column(
                    r->Ok_0@[q],
                    *criteria,
                ) == Some(criteria_val@),
            r is Ok ==> forall|k: int|
                0 <= k < self@.len() && column(#[trigger] self@[k], *criteria) == Some(
                    criteria_val@,
                ) ==> r->Ok_0@.contains(self@[k]),
    {
        match criteria {
            SearchCriteria::Playlist => {
                return Err(CatalogError::NoSuchColumn);
            },
            _ => {},
        }
        let mut found: Vec<TrackDB> = Vec::new();
        let mut keys: Vec<String> = Vec::new();
        let mut i: usize = 0;
        assert(self.tracks@.take(0) =~= Seq::<TrackDB>::empty());
        while i < self.tracks.len()
            invariant
                i <= self.tracks@.len(),
                found@ == matching(self.tracks@.take(i as int), *criteria, criteria_val@),
                keys@.len() == found@.len(),
                texts(keys@) == name_keys(found@),
            decreases self.tracks@.len() - i,
        {
            assert(self.tracks@.take(i + 1).drop_last() =~= self.tracks@.take(i as int));
            assert(self.tracks@.take(i + 1).last() == self.tracks@[i as int]);
            let row = &self.tracks[i];
            let holds = match column_of(row, *criteria) {
                Some(v) => crate::podcast::same_text(v.as_str(), criteria_val),
                None => false,
            };
            if holds {
                let ghost before = name_keys(found@);
                let ghost old_keys = keys@;
                keys.push(get_pin_yin(row.name.as_str()));
                found.push(clone_track(row));
                assert forall|j: int| 0 <= j < keys@.len() implies texts(keys@)[j] == name_keys(
                    found@,
                )[j] by {
                    if j < old_keys.len() {
                        assert(texts(old_keys)[j] == before[j]);
                    }
                }
                assert(texts(keys@) =~= name_keys(found@));
            }
            i += 1;
        }
        assert(self.tracks@.take(self.tracks@.len() as int) =~= self.tracks@);
        let order = collate(&keys);
        let mut out: Vec<TrackDB> = Vec::new();
        let mut p: usize = 0;
        assert forall|q: int| 0 <= q < order@.len() implies 0 <= #[trigger] order@[q]
            < found@.len() by {
            assert(indices(order@)[q] == order@[q]);
        }
        while p < order.len()
            invariant
                p <= order@.len(),
                order@.len() == found@.len(),
                forall|q: int| 0 <= q < order@.len() ==> 0 <= #[trigger] order@[q] < found@.len(),
                out@.len() == p,
                forall|q: int| 0 <= q < p ==> #[trigger] out@[q] == found@[order@[q] as int],
            decreases order@.len() - p,
        {
            out.push(clone_track(&found[order[p]]));
            p += 1;
        }
        proof {
            let m = matching(self@, *criteria, criteria_val@);
            let arranged = collated(name_keys(m), m.len() as int);
            assert forall|q: int| 0 <= q < out@.len() implies #[trigger] out@[q] == m[arranged[q]] by {
                assert(indices(order@)[q] == order@[q]);
            }
            assert(out@ =~= listing_of(m));
            lemma_matching(self@, *criteria, criteria_val@);
            lemma_listing(out@, m);
            let names = Seq::new(out@.len(), |q: int| out@[q].name@);
            assert forall|p: int, q: int| 0 <= p && q == p + 1 && q < names.len() implies may_follow(
                pin_yin_of(#[trigger] names[p]),
                pin_yin_of(#[trigger] names[q]),
            ) by {
                assert(name_keys(m)[arranged[p]] == pin_yin_of(out@[p].name@));
                assert(name_keys(m)[arranged[q]] == pin_yin_of(out@[q].name@));
            }
            assert forall|q: int| 0 <= q < out@.len() implies self@.contains(#[trigger] out@[q])
                && column(out@[q], *criteria) == Some(criteria_val@) by {
                assert(m.contains(out@[q]));
            }
            assert forall|k: int|
                0 <= k < self@.len() && column(#[trigger] self@[k], *criteria) == Some(
                    criteria_val@,
                ) implies out@.contains(self@[k]) by {
                assert(m.contains(self@[k]));
            }
        }
        Ok(out)
    }

    /// The values that the rows hold in the column of `criteria`, each once,
    /// in the order of their pinyin; the error `NoSuchColumn` for the
    /// criterion `Playlist`.
    pub fn get_criterias(&self, criteria: &SearchCriteria) -> (r: Result<Vec<String>, CatalogError>)
        ensures
            *criteria == SearchCriteria::Playlist ==> r == Err::<Vec<String>, CatalogError>(
                CatalogError::NoSuchColumn,
            ),
            *criteria != SearchCriteria::Playlist ==> r is Ok && is_value_listing(
                texts(r->Ok_0@),
                distinct_values(self@, *criteria),
            ),
            r is Ok ==> no_duplicates(texts(r->Ok_0@)) && listed_in_order(texts(r->Ok_0@)),
            r is Ok ==> forall|k: int|
                0 <= k < self@.len() ==> texts(r->Ok_0@).contains(
                    column(#[trigger] self@[k], *criteria)->0,
                ),
    {
        match criteria {
            SearchCriteria::Playlist => {
                return Err(CatalogError::NoSuchColumn);
            },
            _ => {},
        }
        let mut values: Vec<String> = Vec::new();
        let mut keys: Vec<String> = Vec::new();
        let mut i: usize = 0;
        assert(self.tracks@.take(0) =~= Seq::<TrackDB>::empty());
        assert(texts(values@) =~= distinct_values(self.tracks@.take(0), *criteria));
        while i < self.tracks.len()
            invariant
                i <= self.tracks@.len(),
                texts(values@) == distinct_values(self.tracks@.take(i as int), *criteria),
                keys@.len() == values@.len(),
                forall|k: int|
                    0 <= k < keys@.len() ==> (#[trigger] keys@[k])@ == pin_yin_of(values@[k]@),
            decreases self.tracks@.len() - i,
        {
            assert(self.tracks@.take(i + 1).drop_last() =~= self.tracks@.take(i as int));
            assert(self.tracks@.take(i + 1).last() == self.tracks@[i as int]);
            match column_of(&self.tracks[i], *criteria) {
                Some(v) => {
                    let ghost before = texts(values@);
                    let mut known = false;
                    let mut k: usize = 0;
                    while k < values.len() && !known
                        invariant
                            k <= values@.len(),
                            before == texts(values@),
                            known ==> before.contains(v@),
                            !known ==> forall|j: int| 0 <= j < k ==> #[trigger] before[j] != v@,
                        decreases values@.len() - k + (if known {
                            0int
                        } else {
                            1int
                        }),
                    {
                        if values[k] == *v {
                            assert(before[k as int] == v@);
                            known = true;
                        } else {
                            k += 1;
                        }
                    }
                    if !known {
                        keys.push(get_pin_yin(v.as_str()));
                        values.push(v.clone());
                        assert(texts(values@) =~= before.push(v@));
                    }
                },
                None => {},
            }
            i += 1;
        }
        assert(self.tracks@.take(self.tracks@.len() as int) =~= self.tracks@);
        let order = collate(&keys);
        let mut out: Vec<String> = Vec::new();
        let mut p: usize = 0;
        assert forall|q: int| 0 <= q < order@.len() implies 0 <= #[trigger] order@[q]
            < values@.len() by {
            assert(indices(order@)[q] == order@[q]);
        }
        while p < order.len()
            invariant
                p <= order@.len(),
                order@.len() == values@.len(),
                forall|q: int| 0 <= q < order@.len() ==> 0 <= #[trigger] order@[q] < values@.len(),
                out@.len() == p,
                forall|q: int| 0 <= q < p ==> (#[trigger] out@[q])@ == values@[order@[q] as int]@,
            decreases order@.len() - p,
        {
            out.push(values[order[p]].clone());
            p += 1;
        }
        proof {
            let d = distinct_values(self@, *criteria);
            let key_texts = Seq::new(d.len(), |k: int| pin_yin_of(d[k]));
            assert(texts(keys@) =~= key_texts);
            let arranged = collated(key_texts, d.len() as int);
            assert forall|q: int| 0 <= q < out@.len() implies #[trigger] texts(out@)[q]
                == d[arranged[q]] by {
                assert(indices(order@)[q] == order@[q]);
                assert(texts(values@)[order@[q] as int] == values@[order@[q] as int]@);
            }
            lemma_distinct_values(self@, *criteria);
            lemma_value_listing(texts(out@), d);
            assert forall|k: int| 0 <= k < self@.len() implies texts(out@).contains(
                column(#[trigger] self@[k], *criteria)->0,
            ) by {
                let v = column(self@[k], *criteria)->0;
                assert(d.contains(v));
            }
        }
        Ok(out)
    }
}

/// The rows `rows` in the order of their names in pinyin.
pub open spec fn listing_of(rows: Seq<TrackDB>) -> Seq<TrackDB> {
    Seq::new(rows.len(), |q: int| rows[collated(name_keys(rows), rows.len() as int)[q]])
}

/// Whether `listed` holds the rows `rows` in the order of their names in
/// pinyin: the rows at the indices that `collated` gives.
pub open spec fn is_listing(listed: Seq<TrackDB>, rows: Seq<TrackDB>) -> bool {
    &&& listed.len() == rows.len()
    &&& forall|q: int|
        0 <= q < listed.len() ==> #[trigger] listed[q] == rows[collated(
            name_keys(rows),
            rows.len() as int,
        )[q]]
}

/// Whether `listed` holds the values `values` in the order of their pinyin:
/// the values at the indices that `collated` gives.
pub open spec fn is_value_listing(listed: Seq<Seq<char>>, values: Seq<Seq<char>>) -> bool {
    &&& listed.len() == values.len()
    &&& forall|q: int|
        0 <= q < listed.len() ==> #[trigger] listed[q] == values[collated(
            Seq::new(values.len(), |k: int| pin_yin_of(values[k])),
            values.len() as int,
        )[q]]
}

/// Whether `names` holds no name twice.
pub open spec fn no_duplicates(names: Seq<Seq<char>>) -> bool {
    forall|i: int, j: int| 0 <= i < j < names.len() ==> #[trigger] names[i] != #[trigger] names[j]
}

/// A listing of values without repetitions has none either, stands in the
/// order of the values' pinyin, and holds the same values.
pub proof fn lemma_value_listing(listed: Seq<Seq<char>>, values: Seq<Seq<char>>)
    requires
        is_value_listing(listed, values),
        no_duplicates(values),
    ensures
        no_duplicates(listed),
        listed_in_order(listed),
        forall|v: Seq<char>| values.contains(v) <==> listed.contains(v),
{
    let keys = Seq::new(values.len(), |k: int| pin_yin_of(values[k]));
    let order = collated(keys, values.len() as int);
    crate::collation::lemma_collated(keys, values.len() as int);
    assert forall|i: int, j: int| 0 <= i < j < listed.len() implies #[trigger] listed[i]
        != #[trigger] listed[j] by {
        assert(order[i] != order[j]);
        if order[i] < order[j] {
            assert(values[order[i]] != values[order[j]]);
        } else {
            assert(values[order[j]] != values[order[i]]);
        }
    }
    assert forall|p: int, q: int| 0 <= p && q == p + 1 && q < listed.len() implies may_follow(
        pin_yin_of(#[trigger] listed[p]),
        pin_yin_of(#[trigger] listed[q]),
    ) by {
        assert(keys[order[p]] == pin_yin_of(listed[p]));
        assert(keys[order[q]] == pin_yin_of(listed[q]));
    }
    assert forall|v: Seq<char>| values.contains(v) <==> listed.contains(v) by {
        if values.contains(v) {
            let k = choose|k: int| 0 <= k < values.len() && values[k] == v;
            assert(order.contains(k));
            let q = choose|q: int| 0 <= q < order.len() && order[q] == k;
            assert(listed[q] == v);
        }
        if listed.contains(v) {
            let q = choose|q: int| 0 <= q < listed.len() && listed[q] == v;
            assert(values[order[q]] == v);
        }
    }
}

/// Where the natural order is an order among the pinyin of the values, a
/// listing of the values is in order throughout: no value's pinyin comes
/// after that of a value behind it.
pub proof fn lemma_value_listing_throughout(listed: Seq<Seq<char>>, values: Seq<Seq<char>>)
    requires
        is_value_listing(listed, values),
        crate::collation::orders(Seq::new(values.len(), |k: int| pin_yin_of(values[k]))),
    ensures
        forall|i: int, j: int|
            0 <= i < j < listed.len() ==> crate::natural::natural_order(
                pin_yin_of(#[trigger] listed[i]),
                pin_yin_of(#[trigger] listed[j]),
            ) != crate::natural::Order::Greater,
{
    let keys = Seq::new(values.len(), |k: int| pin_yin_of(values[k]));
    let order = collated(keys, values.len() as int);
    crate::collation::lemma_collated(keys, values.len() as int);
    crate::collation::lemma_in_order_throughout(keys, order);
    assert forall|i: int, j: int| 0 <= i < j < listed.len() implies crate::natural::natural_order(
        pin_yin_of(#[trigger] listed[i]),
        pin_yin_of(#[trigger] listed[j]),
    ) != crate::natural::Order::Greater by {
        assert(keys[order[i]] == pin_yin_of(listed[i]));
        assert(keys[order[j]] == pin_yin_of(listed[j]));
    }
}

/// A listing of rows holds the same rows.
pub proof fn lemma_listing(listed: Seq<TrackDB>, rows: Seq<TrackDB>)
    requires
        is_listing(listed, rows),
    ensures
        forall|x: TrackDB| rows.contains(x) <==> listed.contains(x),
        in_order(name_keys(rows), collated(name_keys(rows), rows.len() as int)),
{
    let order = collated(name_keys(rows), rows.len() as int);
    crate::collation::lemma_collated(name_keys(rows), rows.len() as int);
    assert forall|x: TrackDB| rows.contains(x) <==> listed.contains(x) by {
        if rows.contains(x) {
            let k = choose|k: int| 0 <= k < rows.len() && rows[k] == x;
            assert(order.contains(k));
            let q = choose|q: int| 0 <= q < order.len() && order[q] == k;
            assert(listed[q] == x);
        }
        if listed.contains(x) {
            let q = choose|q: int| 0 <= q < listed.len() && listed[q] == x;
            assert(rows[order[q]] == x);
        }
    }
}

/// The matching rows are the rows that hold the value.
pub proof fn lemma_matching(rows: Seq<TrackDB>, c: SearchCriteria, value: Seq<char>)
    ensures
        forall|x: TrackDB|
            matching(rows, c, value).contains(x) <==> rows.contains(x) && column(x, c) == Some(
                value,
            ),
    decreases rows.len(),
{
    let m = matching(rows, c, value);
    if rows.len() > 0 {
        let front = rows.drop_last();
        let mf = matching(front, c, value);
        lemma_matching(front, c, value);
        assert forall|x: TrackDB| m.contains(x) <==> rows.contains(x) && column(x, c) == Some(
            value,
        ) by {
            if m.contains(x) {
                let k = choose|k: int| 0 <= k < m.len() && m[k] == x;
                if k < mf.len() {
                    assert(mf[k] == x);
                    assert(mf.contains(x));
                    let j = choose|j: int| 0 <= j < front.len() && front[j] == x;
                    assert(rows[j] == x);
                } else {
                    assert(rows[rows.len() - 1] == x);
                }
            }
            if rows.contains(x) && column(x, c) == Some(value) {
                let j = choose|j: int| 0 <= j < rows.len() && rows[j] == x;
                if j < front.len() {
                    assert(front[j] == x);
                    assert(mf.contains(x));
                    let k = choose|k: int| 0 <= k < mf.len() && mf[k] == x;
                    assert(m[k] == x);
                } else {
                    assert(m[m.len() - 1] == x);
                }
            }
        }
    }
}

/// How deep below the root a scan goes.
#[derive(Debug, Clone, Copy, PartialEq, Eq, Structural)]
pub enum ScanDepth {
    /// As deep as the directories go.
    Unlimited,
    /// At most this many levels below the root.
    Limited(u32),
}

/// Whether something `depth` levels below the root is within `limit`.
pub open spec fn within_depth(depth: usize, limit: ScanDepth) -> bool {
    match limit {
        ScanDepth::Unlimited => true,
        ScanDepth::Limited(n) => depth <= n,
    }
}

/// Tells whether something `depth` levels below the root is within `limit`.
pub fn depth_allowed(depth: usize, limit: ScanDepth) -> (r: bool)
    ensures
        r == within_depth(depth, limit),
{
    match limit {
        ScanDepth::Unlimited => true,
        ScanDepth::Limited(n) => depth <= n as usize,
    }
}

/// The index behind the last `c` in `s`, or zero where `s` holds none.
pub open spec fn after_last(s: Seq<char>, c: char) -> int
    decreases s.len(),
{
    if s.len() == 0 {
        0
    } else if s.last() == c {
        s.len() as int
    } else {
        after_last(s.drop_last(), c)
    }
}

/// The extension of the file at `path`: what stands behind the last dot of
/// the file's name, where the name has a dot that is not its first
/// character.
pub open spec fn extension_of_path(path: Seq<char>) -> Option<Seq<char>> {
    let name = path.skip(after_last(path, '/'));
    let dot = after_last(name, '.');
    if dot >= 2 {
        Some(name.skip(dot))
    } else {
        None
    }
}

/// Whether files with the extension `ext` are audio that the player reads.
pub open spec fn supported_extension(ext: Seq<char>) -> bool {
    ||| ext == "mkv"@
    ||| ext == "mka"@
    ||| ext == "mp3"@
    ||| ext == "aiff"@
    ||| ext == "aif"@
    ||| ext == "aifc"@
    ||| ext == "flac"@
    ||| ext == "m4a"@
    ||| ext == "aac"@
    ||| ext == "opus"@
    ||| ext == "ogg"@
    ||| ext == "wav"@
    ||| ext == "webm"@
}

/// Whether the file at `path` is audio that the player reads, by its
/// extension.
pub open spec fn supported_path(path: Seq<char>) -> bool {
    match extension_of_path(path) {
        Some(ext) => supported_extension(ext),
        None => false,
    }
}

/// The index behind the last `c` in `s`.
fn index_after_last(s: &[char], c: char) -> (r: usize)
    ensures
        r == after_last(s@, c),
        r <= s@.len(),
{
    let mut n: usize = s.len();
    assert(s@.take(n as int) =~= s@);
    while n > 0 && s[n - 1] != c
        invariant
            n <= s@.len(),
            after_last(s@, c) == after_last(s@.take(n as int), c),
        decreases n,
    {
        assert(s@.take(n as int).drop_last() =~= s@.take(n - 1));
        n -= 1;
    }
    n
}

/// Tells whether the file at `path` is audio that the player reads.
pub fn filetype_supported(path: &str) -> (r: bool)
    ensures
        r == supported_path(path@),
{
    let chars = crate::text::chars_of(path);
    let all = chars.as_slice();
    let start = index_after_last(all, '/');
    let name = vstd::slice::slice_subrange(all, start, all.len());
    assert(name@ == path@.skip(start as int));
    let dot = index_after_last(name, '.');
    if dot < 2 {
        return false;
    }
    let ext_chars = vstd::slice::slice_subrange(name, dot, name.len());
    assert(ext_chars@ == name@.skip(dot as int));
    let ext_string = crate::text::string_of(ext_chars);
    let ext = ext_string.as_str();
    crate::podcast::same_text(ext, "mkv") || crate::podcast::same_text(ext, "mka")
        || crate::podcast::same_text(ext, "mp3") || crate::podcast::same_text(ext, "aiff")
        || crate::podcast::same_text(ext, "aif") || crate::podcast::same_text(ext, "aifc")
        || crate::podcast::same_text(ext, "flac") || crate::podcast::same_text(ext, "m4a")
        || crate::podcast::same_text(ext, "aac") || crate::podcast::same_text(ext, "opus")
        || crate::podcast::same_text(ext, "ogg") || crate::podcast::same_text(ext, "wav")
        || crate::podcast::same_text(ext, "webm")
}

/// What a scan finds at one path.
#[derive(Debug, Clone, Eq, PartialEq)]
pub struct DiskFile {
    pub path: String,
    /// How many levels below the root the path lies.
    pub depth: usize,
    /// Whether a file is there, not a directory.
    pub is_file: bool,
    /// When the file was last changed, in seconds since 1970, where that
    /// can be read.
    pub modified: Option<u64>,
}

/// Whether a scan with the limit `limit` takes `f` for a track.
pub open spec fn admitted(f: DiskFile, limit: ScanDepth) -> bool {
    f.is_file && within_depth(f.depth, limit) && supported_path(f.path@)
}

/// Whether the file at `file`, last changed at `modified`, has to be read
/// again: no row has its path with a time of change that is not earlier, or
/// the file's time of change cannot be read.
pub open spec fn needs_update(rows: Seq<TrackDB>, file: Seq<char>, modified: Option<u64>) -> bool {
    modified is None || !exists|i: int|
        0 <= i < rows.len() && (#[trigger] rows[i]).file@ == file && rows[i].last_modified
            >= modified->0
}

/// Whether a scan has to read the track at `f`.
pub open spec fn wanted(rows: Seq<TrackDB>, f: DiskFile, limit: ScanDepth) -> bool {
    admitted(f, limit) && needs_update(rows, f.path@, f.modified)
}

/// The rows `rows` after each row of `parsed` has been written, in their
/// order.
pub open spec fn upsert_all(rows: Seq<TrackDB>, parsed: Seq<TrackDB>) -> Seq<TrackDB>
    decreases parsed.len(),
{
    if parsed.len() == 0 {
        rows
    } else {
        upserted(upsert_all(rows, parsed.drop_last()), parsed.last())
    }
}

/// The rows `rows` without the rows of the paths `gone`.
pub open spec fn without_all(rows: Seq<TrackDB>, gone: Seq<Seq<char>>) -> Seq<TrackDB>
    decreases gone.len(),
{
    if gone.len() == 0 {
        rows
    } else {
        removed(without_all(rows, gone.drop_last()), gone.last())
    }
}

/// Whether a row of `rows` has the path `file`.
pub open spec fn holds_file(rows: Seq<TrackDB>, file: Seq<char>) -> bool {
    exists|j: int| 0 <= j < rows.len() && (#[trigger] rows[j]).file@ == file
}

impl Catalog {
    /// Tells whether the file at `file`, last changed at `modified`, has to
    /// be read again.
    pub fn need_update(&self, file: &str, modified: Option<u64>) -> (r: bool)
        ensures
            r == needs_update(self@, file@, modified),
    {
        proof {
            use_type_invariant(self);
            lemma_row_index(self@, file@);
        }
        match modified {
            None => true,
            Some(m) => match self.find(file) {
                Some(i) => {
                    let stored = self.tracks[i].last_modified;
                    proof {
                        if stored < m {
                            assert forall|j: int|
                                0 <= j < self@.len() && (#[trigger] self@[j]).file@
                                    == file@ implies self@[j].last_modified < m by {
                                if j < i {
                                    assert(self@[j].file@ != self@[i as int].file@);
                                } else if j > i {
                                    assert(self@[i as int].file@ != self@[j].file@);
                                }
                            }
                        }
                    }
                    stored < m
                },
                None => true,
            },
        }
    }

    /// The indices of the files of `files` that a scan with the limit
    /// `limit` has to read, in rising order.
    pub fn files_to_parse(&self, files: &Vec<DiskFile>, limit: ScanDepth) -> (r: Vec<usize>)
        ensures
            forall|k: int|
                0 <= k < r@.len() ==> (#[trigger] r@[k]) < files@.len() && wanted(
                    self@,
                    files@[r@[k] as int],
                    limit,
                ),
            forall|k: int, l: int| 0 <= k < l < r@.len() ==> #[trigger] r@[k] < #[trigger] r@[l],
            forall|i: int|
                0 <= i < files@.len() && wanted(self@, #[trigger] files@[i], limit) ==> r@.contains(
                    i as usize,
                ),
    {
        let mut out: Vec<usize> = Vec::new();
        let mut i: usize = 0;
        while i < files.len()
            invariant
                i <= files@.len(),
                forall|k: int|
                    0 <= k < out@.len() ==> (#[trigger] out@[k]) < i && wanted(
                        self@,
                        files@[out@[k] as int],
                        limit,
                    ),
                forall|k: int, l: int|
                    0 <= k < l < out@.len() ==> #[trigger] out@[k] < #[trigger] out@[l],
                forall|j: int|
                    0 <= j < i && wanted(self@, #[trigger] files@[j], limit) ==> out@.contains(
                        j as usize,
                    ),
            decreases files@.len() - i,
        {
            let f = &files[i];
            let ghost before = out@;
            if f.is_file && depth_allowed(f.depth, limit) && filetype_supported(f.path.as_str())
                && self.need_update(f.path.as_str(), f.modified) {
                out.push(i);
                assert(out@[out@.len() - 1] == i);
            }
            assert forall|j: int|
                0 <= j < i + 1 && wanted(self@, #[trigger] files@[j], limit) implies out@.contains(
                j as usize,
            ) by {
                if j < i {
                    let k = choose|k: int| 0 <= k < before.len() && before[k] == j as usize;
                    assert(out@[k] == j as usize);
                }
            }
            i += 1;
        }
        out
    }

    /// Brings the catalog in step with the disk: writes the rows `parsed`,
    /// then takes away the rows whose paths are in `gone`.
    pub fn apply_sync(&mut self, parsed: Vec<TrackDB>, gone: &Vec<String>)
        ensures
            final(self)@ == without_all(upsert_all(old(self)@, parsed@), texts(gone@)),
    {
        let mut i: usize = 0;
        assert(parsed@.take(0) =~= Seq::<TrackDB>::empty());
        while i < parsed.len()
            invariant
                i <= parsed@.len(),
                self@ == upsert_all(old(self)@, parsed@.take(i as int)),
            decreases parsed@.len() - i,
        {
            assert(parsed@.take(i + 1).drop_last() =~= parsed@.take(i as int));
            assert(parsed@.take(i + 1).last() == parsed@[i as int]);
            self.upsert(clone_track(&parsed[i]));
            i += 1;
        }
        assert(parsed@.take(parsed@.len() as int) =~= parsed@);
        let ghost written = self@;
        let ghost paths = texts(gone@);
        let mut k: usize = 0;
        assert(paths.take(0) =~= Seq::<Seq<char>>::empty());
        while k < gone.len()
            invariant
                k <= gone@.len(),
                paths == texts(gone@),
                self@ == without_all(written, paths.take(k as int)),
            decreases gone@.len() - k,
        {
            assert(paths.take(k + 1).drop_last() =~= paths.take(k as int));
            assert(paths.take(k + 1).last() == gone@[k as int]@);
            self.delete(gone[k].as_str());
            k += 1;
        }
        assert(paths.take(gone@.len() as int) =~= paths);
    }

    /// The rows of the tracks that the playlist with the entries `entries`
    /// names, in the playlist's order. Entries without a row are passed
    /// over.
    pub fn tracks_of_playlist(&self, entries: &Vec<String>) -> (r: Vec<TrackDB>)
        ensures
            r@ == playlist_rows(self@, texts(entries@)),
    {
        let ghost paths = texts(entries@);
        let mut out: Vec<TrackDB> = Vec::new();
        let mut i: usize = 0;
        assert(paths.take(0) =~= Seq::<Seq<char>>::empty());
        while i < entries.len()
            invariant
                i <= entries@.len(),
                paths == texts(entries@),
                out@ == playlist_rows(self@, paths.take(i as int)),
            decreases entries@.len() - i,
        {
            assert(paths.take(i + 1).drop_last() =~= paths.take(i as int));
            assert(paths.take(i + 1).last() == entries@[i as int]@);
            match self.find(entries[i].as_str()) {
                Some(k) => {
                    out.push(clone_track(&self.tracks[k]));
                },
                None => {},
            }
            i += 1;
        }
        assert(paths.take(entries@.len() as int) =~= paths);
        out
    }
}

/// The rows of `rows` that have the paths `entries`, in the order of the
/// paths; a path without a row adds nothing.
pub open spec fn playlist_rows(rows: Seq<TrackDB>, entries: Seq<Seq<char>>) -> Seq<TrackDB>
    decreases entries.len(),
{
    if entries.len() == 0 {
        Seq::empty()
    } else {
        let i = row_index(rows, entries.last());
        if 0 <= i < rows.len() {
            playlist_rows(rows, entries.drop_last()).push(rows[i])
        } else {
            playlist_rows(rows, entries.drop_last())
        }
    }
}

/// After a row has been written, the rows are that row and those of the old
/// rows that have another path.
pub proof fn lemma_upserted(rows: Seq<TrackDB>, row: TrackDB)
    requires
        unique_files(rows),
    ensures
        upserted(rows, row).contains(row),
        forall|x: TrackDB| #[trigger]
            upserted(rows, row).contains(x) ==> x == row || (rows.contains(x) && x.file@
                != row.file@),
        forall|x: TrackDB|
            rows.contains(x) && x.file@ != row.file@ ==> #[trigger] upserted(rows, row).contains(x),
{
    lemma_row_index(rows, row.file@);
    let i = row_index(rows, row.file@);
    let u = upserted(rows, row);
    if i < rows.len() {
        assert(u[i] == row);
    } else {
        assert(u[rows.len() as int] == row);
    }
    assert forall|x: TrackDB| #[trigger] u.contains(x) implies x == row || (rows.contains(x)
        && x.file@ != row.file@) by {
        let k = choose|k: int| 0 <= k < u.len() && u[k] == x;
        if x != row {
            assert(rows[k] == x);
            if i >= rows.len() {
                assert(rows[k].file@ != row.file@);
            } else {
                assert(k != i);
                if k < i {
                    assert(rows[k].file@ != rows[i].file@);
                } else {
                    assert(rows[i].file@ != rows[k].file@);
                }
            }
        }
    }
    assert forall|x: TrackDB| rows.contains(x) && x.file@ != row.file@ implies #[trigger] u.contains(
        x,
    ) by {
        let k = choose|k: int| 0 <= k < rows.len() && rows[k] == x;
        assert(u[k] == x);
    }
}

/// After the row of a path has been taken away from rows with paths apart,
/// the rows are those of the old rows that have another path.
pub proof fn lemma_removed(rows: Seq<TrackDB>, file: Seq<char>)
    requires
        unique_files(rows),
    ensures
        forall|x: TrackDB| #[trigger]
            removed(rows, file).contains(x) <==> rows.contains(x) && x.file@ != file,
{
    lemma_row_index(rows, file);
    let i = row_index(rows, file);
    let d = removed(rows, file);
    assert forall|x: TrackDB| #[trigger] d.contains(x) <==> rows.contains(x) && x.file@ != file by {
        if d.contains(x) {
            let k = choose|k: int| 0 <= k < d.len() && d[k] == x;
            if i < rows.len() {
                let k0 = if k < i {
                    k
                } else {
                    k + 1
                };
                assert(rows[k0] == x);
                if k0 < i {
                    assert(rows[k0].file@ != rows[i].file@);
                } else {
                    assert(rows[i].file@ != rows[k0].file@);
                }
            } else {
                assert(rows[k] == x);
            }
        }
        if rows.contains(x) && x.file@ != file {
            let k = choose|k: int| 0 <= k < rows.len() && rows[k] == x;
            if i < rows.len() {
                let k1 = if k < i {
                    k
                } else {
                    k - 1
                };
                assert(d[k1] == x);
            } else {
                assert(d[k] == x);
            }
        }
    }
}

/// After rows have been written, each row is an old row or a written one,
/// each written path has a row that was written, and each old path still
/// has a row.
pub proof fn lemma_upsert_all(rows: Seq<TrackDB>, parsed: Seq<TrackDB>)
    requires
        unique_files(rows),
    ensures
        unique_files(upsert_all(rows, parsed)),
        forall|x: TrackDB| #[trigger]
            upsert_all(rows, parsed).contains(x) ==> parsed.contains(x) || (rows.contains(x)
                && !holds_file(parsed, x.file@)),
        forall|k: int|
            0 <= k < parsed.len() ==> exists|x: TrackDB|
                upsert_all(rows, parsed).contains(x) && parsed.contains(x) && x.file@ == (
                #[trigger] parsed[k]).file@,
        forall|x: TrackDB|
            rows.contains(x) && !holds_file(parsed, x.file@) ==> #[trigger] upsert_all(
                rows,
                parsed,
            ).contains(x),
    decreases parsed.len(),
{
    let u = upsert_all(rows, parsed);
    if parsed.len() > 0 {
        let front = parsed.drop_last();
        let row = parsed.last();
        let uf = upsert_all(rows, front);
        lemma_upsert_all(rows, front);
        lemma_unique_kept(uf, row, row.file@);
        lemma_upserted(uf, row);
        assert(parsed[parsed.len() - 1] == row);
        assert forall|x: TrackDB| #[trigger] u.contains(x) implies parsed.contains(x) || (
        rows.contains(x) && !holds_file(parsed, x.file@)) by {
            if x != row {
                assert(uf.contains(x));
                if front.contains(x) {
                    let k = choose|k: int| 0 <= k < front.len() && front[k] == x;
                    assert(parsed[k] == x);
                } else {
                    if holds_file(parsed, x.file@) {
                        let j = choose|j: int| 0 <= j < parsed.len() && parsed[j].file@ == x.file@;
                        if j < front.len() {
                            assert(front[j].file@ == x.file@);
                        }
                    }
                }
            }
        }
        assert forall|k: int| 0 <= k < parsed.len() implies exists|x: TrackDB|
            u.contains(x) && parsed.contains(x) && x.file@ == (#[trigger] parsed[k]).file@ by {
            if parsed[k].file@ == row.file@ {
                assert(u.contains(row) && parsed.contains(row));
            } else {
                assert(front[k] == parsed[k]);
                let x = choose|x: TrackDB|
                    uf.contains(x) && front.contains(x) && x.file@ == front[k].file@;
                let j = choose|j: int| 0 <= j < front.len() && front[j] == x;
                assert(parsed[j] == x);
                assert(u.contains(x));
            }
        }
        assert forall|x: TrackDB|
            rows.contains(x) && !holds_file(parsed, x.file@) implies #[trigger] u.contains(x) by {
            assert(!holds_file(front, x.file@)) by {
                if holds_file(front, x.file@) {
                    let j = choose|j: int| 0 <= j < front.len() && front[j].file@ == x.file@;
                    assert(parsed[j].file@ == x.file@);
                }
            }
            assert(uf.contains(x));
        }
    }
}

/// After the rows of given paths have been taken away from rows with paths
/// apart, the rows are those of the old rows whose path is not among them.
pub proof fn lemma_without_all(rows: Seq<TrackDB>, gone: Seq<Seq<char>>)
    requires
        unique_files(rows),
    ensures
        unique_files(without_all(rows, gone)),
        forall|x: TrackDB| #[trigger]
            without_all(rows, gone).contains(x) <==> rows.contains(x) && !gone.contains(x.file@),
    decreases gone.len(),
{
    let w = without_all(rows, gone);
    if gone.len() > 0 {
        let front = gone.drop_last();
        let wf = without_all(rows, front);
        lemma_without_all(rows, front);
        lemma_unique_kept(wf, wf[0], gone.last());
        lemma_removed(wf, gone.last());
        assert forall|x: TrackDB| #[trigger] w.contains(x) <==> rows.contains(x) && !gone.contains(
            x.file@,
        ) by {
            assert(gone[gone.len() - 1] == gone.last());
            if w.contains(x) {
                assert(wf.contains(x));
                if gone.contains(x.file@) {
                    let k = choose|k: int| 0 <= k < gone.len() && gone[k] == x.file@;
                    assert(front[k] == x.file@);
                }
            }
            if rows.contains(x) && !gone.contains(x.file@) {
                if front.contains(x.file@) {
                    let k = choose|k: int| 0 <= k < front.len() && front[k] == x.file@;
                    assert(gone[k] == x.file@);
                }
                assert(wf.contains(x));
            }
        }
    } else {
        assert forall|x: TrackDB| #[trigger] w.contains(x) <==> rows.contains(x) && !gone.contains(
            x.file@,
        ) by {
        }
    }
}

/// After a scan the catalog agrees with the disk. Let `files` be what the
/// scan found, all of it on disk; let `parsed` hold a row for each file that
/// had to be read, each row for a path on disk and with a time of change
/// that is not earlier than the file's; and let `gone` be the paths of rows
/// that are not on disk. Then, once `parsed` is written and `gone` taken
/// away, every row's path is on disk, and every file that the scan takes
/// for a track has a row whose time of change is not earlier than the
/// file's.
pub proof fn lemma_sync(
    rows: Seq<TrackDB>,
    files: Seq<DiskFile>,
    limit: ScanDepth,
    parsed: Seq<TrackDB>,
    gone: Seq<Seq<char>>,
    on_disk: Set<Seq<char>>,
)
    requires
        unique_files(rows),
        forall|i: int|
            0 <= i < files.len() && admitted(#[trigger] files[i], limit) ==> on_disk.contains(
                files[i].path@,
            ),
        forall|i: int|
            0 <= i < files.len() && wanted(rows, #[trigger] files[i], limit) ==> holds_file(
                parsed,
                files[i].path@,
            ),
        forall|k: int| 0 <= k < parsed.len() ==> on_disk.contains((#[trigger] parsed[k]).file@),
        forall|k: int, i: int|
            0 <= k < parsed.len() && 0 <= i < files.len() && (#[trigger] parsed[k]).file@ == (
            #[trigger] files[i]).path@ && files[i].modified is Some ==> parsed[k].last_modified
                >= files[i].modified->0,
        forall|j: int| 0 <= j < gone.len() ==> !on_disk.contains(#[trigger] gone[j]),
        forall|x: TrackDB| #[trigger]
            upsert_all(rows, parsed).contains(x) && !on_disk.contains(x.file@) ==> gone.contains(
                x.file@,
            ),
    ensures
        unique_files(without_all(upsert_all(rows, parsed), gone)),
        forall|x: TrackDB| #[trigger]
            without_all(upsert_all(rows, parsed), gone).contains(x) ==> on_disk.contains(x.file@),
        forall|i: int|
            0 <= i < files.len() && admitted(#[trigger] files[i], limit) ==> exists|x: TrackDB|
                without_all(upsert_all(rows, parsed), gone).contains(x) && x.file@
                    == files[i].path@ && (files[i].modified is Some ==> x.last_modified
                    >= files[i].modified->0),
{
    let u = upsert_all(rows, parsed);
    let w = without_all(u, gone);
    lemma_upsert_all(rows, parsed);
    lemma_without_all(u, gone);
    assert forall|x: TrackDB| #[trigger] w.contains(x) implies on_disk.contains(x.file@) by {
        assert(u.contains(x));
    }
    assert forall|i: int| 0 <= i < files.len() && admitted(#[trigger] files[i], limit) implies exists|
        x: TrackDB,
    |
        w.contains(x) && x.file@ == files[i].path@ && (files[i].modified is Some
            ==> x.last_modified >= files[i].modified->0) by {
        let f = files[i];
        assert(!gone.contains(f.path@)) by {
            if gone.contains(f.path@) {
                let j = choose|j: int| 0 <= j < gone.len() && gone[j] == f.path@;
                assert(!on_disk.contains(gone[j]));
            }
        }
        if holds_file(parsed, f.path@) {
            let k = choose|k: int| 0 <= k < parsed.len() && parsed[k].file@ == f.path@;
            let x = choose|x: TrackDB|
                u.contains(x) && parsed.contains(x) && x.file@ == parsed[k].file@;
            let k2 = choose|k2: int| 0 <= k2 < parsed.len() && parsed[k2] == x;
            assert(parsed[k2].file@ == files[i].path@);
            assert(w.contains(x));
        } else {
            assert(!wanted(rows, f, limit));
            let j = choose|j: int|
                0 <= j < rows.len() && (#[trigger] rows[j]).file@ == f.path@
                    && rows[j].last_modified >= f.modified->0;
            let x = rows[j];
            assert(rows.contains(x));
            assert(u.contains(x));
            assert(w.contains(x));
        }
    }
}

} // verus!
