//! The catalog of tracks, keyed by path, written with insert-or-ignore: a
//! record whose path is already catalogued is silently skipped.
//!
//! `Catalog` is an in-memory model of that store, and the proofs about
//! repeated and partly failing batches speak of it (`insert_all_spec`). A
//! program that keeps its catalog in a database writes through the
//! database's own on-conflict clause instead, and these proofs say nothing
//! about that write. Ids are `u16`, so this model holds at most
//! `CATALOG_CAPACITY` rows and fails with `Full` beyond that.

use vstd::prelude::*;
use vstd::string::StringExecFns;
use crate::extract::TrackRecord;

verus! {

/// The most rows a catalog holds: ids run from 1 up to this.
pub const CATALOG_CAPACITY: usize = 65535;

/// A catalogued track.
#[derive(Debug)]
pub struct Track {
    pub id: u16,
    pub length: u16,
    pub title: String,
    pub artist: String,
    pub album: String,
    pub genre: String,
    pub path: String,
}

/// Why a write to the catalog failed.
#[derive(Debug)]
pub enum PersistenceError {
    /// The catalog holds as many rows as it can.
    Full,
    /// The store refused the write; the text is its cause.
    Write(String),
}

pub open spec fn persistence_message(e: PersistenceError) -> Seq<char> {
    match e {
        PersistenceError::Full => "Error saving track: catalog is full"@,
        PersistenceError::Write(c) => "Error saving track: "@ + c@,
    }
}

impl PersistenceError {
    /// The line of text that stands for this error in a scan's digest.
    pub fn message(&self) -> (r: String)
        ensures
            r@ == persistence_message(*self),
    {
        match self {
            PersistenceError::Full => "Error saving track: catalog is full".to_owned(),
            PersistenceError::Write(cause) => {
                let mut m: String = "Error saving track: ".to_owned();
                m.append(cause.as_str());
                m
            },
        }
    }
}

/// A duration as a row holds it: none counts as zero, and it is capped at
/// the largest `u16`.
pub open spec fn row_length(l: Option<i32>) -> u16 {
    match l {
        Some(s) => if s < 0 {
            0u16
        } else if s > 65535 {
            65535u16
        } else {
            s as u16
        },
        None => 0u16,
    }
}

/// The row made from `r` under id `id`.
pub open spec fn row_of(id: int, r: TrackRecord) -> Track {
    Track {
        id: id as u16,
        length: row_length(r.length_seconds),
        title: r.title,
        artist: r.artist,
        album: r.album,
        genre: r.genre,
        path: r.path,
    }
}

pub open spec fn has_path(rows: Seq<Track>, p: Seq<char>) -> bool {
    exists|i: int| 0 <= i < rows.len() && (#[trigger] rows[i]).path@ == p
}

/// What inserting `r` into `rows` leaves: `rows` unchanged where the path is
/// already there or the catalog is full, else one more row at the end, with
/// the next id.
pub open spec fn insert_spec(rows: Seq<Track>, r: TrackRecord) -> Seq<Track> {
    if has_path(rows, r.path@) || rows.len() >= CATALOG_CAPACITY {
        rows
    } else {
        rows.push(row_of(rows.len() + 1 as int, r))
    }
}

/// What inserting each of `rs` in turn into `rows` leaves.
pub open spec fn insert_all_spec(rows: Seq<Track>, rs: Seq<TrackRecord>) -> Seq<Track>
    decreases rs.len(),
{
    if rs.len() == 0 {
        rows
    } else {
        insert_spec(insert_all_spec(rows, rs.drop_last()), rs.last())
    }
}

/// Inserting only appends, and afterwards each inserted record's path is
/// catalogued unless the catalog is full.
pub proof fn lemma_insert_all_covers(rows: Seq<Track>, rs: Seq<TrackRecord>)
    ensures
        rows.len() <= insert_all_spec(rows, rs).len(),
        forall|i: int| 0 <= i < rows.len() ==> #[trigger] insert_all_spec(rows, rs)[i] == rows[i],
        forall|k: int|
            0 <= k < rs.len() ==> has_path(insert_all_spec(rows, rs), (#[trigger] rs[k]).path@)
                || insert_all_spec(rows, rs).len() >= CATALOG_CAPACITY,
    decreases rs.len(),
{
    if rs.len() > 0 {
        let t = rs.drop_last();
        lemma_insert_all_covers(rows, t);
        let b = insert_all_spec(rows, t);
        let a = insert_all_spec(rows, rs);
        assert(a == insert_spec(b, rs.last()));
        assert forall|i: int| 0 <= i < b.len() implies #[trigger] a[i] == b[i] by {}
        assert forall|k: int| 0 <= k < rs.len() implies has_path(a, (#[trigger] rs[k]).path@)
            || a.len() >= CATALOG_CAPACITY by {
            if k < rs.len() - 1 {
                assert(rs[k] == t[k]);
                if has_path(b, rs[k].path@) {
                    let i = choose|i: int| 0 <= i < b.len() && (#[trigger] b[i]).path@ == rs[k].path@;
                    assert(a[i] == b[i]);
                }
            } else if !has_path(b, rs[k].path@) && b.len() < CATALOG_CAPACITY {
                assert(a[b.len() as int].path@ == rs[k].path@);
            }
        }
    }
}

proof fn lemma_insert_covered_unchanged(a: Seq<Track>, rs: Seq<TrackRecord>, k: int)
    requires
        0 <= k <= rs.len(),
        forall|j: int|
            0 <= j < rs.len() ==> has_path(a, (#[trigger] rs[j]).path@) || a.len()
                >= CATALOG_CAPACITY,
    ensures
        insert_all_spec(a, rs.take(k)) == a,
    decreases k,
{
    if k > 0 {
        lemma_insert_covered_unchanged(a, rs, k - 1);
        assert(rs.take(k).drop_last() =~= rs.take(k - 1));
        assert(rs.take(k).last() == rs[k - 1]);
    }
}

/// Ingesting the same records a second time changes nothing: the catalog
/// after the second pass is the catalog after the first, row for row, so its
/// row count is the same.
pub proof fn lemma_ingest_twice_idempotent(rows: Seq<Track>, rs: Seq<TrackRecord>)
    ensures
        insert_all_spec(insert_all_spec(rows, rs), rs) == insert_all_spec(rows, rs),
        insert_all_spec(insert_all_spec(rows, rs), rs).len() == insert_all_spec(rows, rs).len(),
{
    let a = insert_all_spec(rows, rs);
    lemma_insert_all_covers(rows, rs);
    lemma_insert_covered_unchanged(a, rs, rs.len() as int);
    assert(rs.take(rs.len() as int) =~= rs);
}

/// Records with pairwise distinct paths, none of them catalogued yet, all
/// land where there is room for them: the rows already there stay as they
/// are, and one row follows for each record, in order.
pub proof fn lemma_insert_all_distinct(rows: Seq<Track>, rs: Seq<TrackRecord>)
    requires
        rows.len() + rs.len() <= CATALOG_CAPACITY,
        forall|i: int, j: int| 0 <= i < j < rs.len() ==> (#[trigger] rs[i]).path@ != (#[trigger] rs[j]).path@,
        forall|i: int| 0 <= i < rs.len() ==> !has_path(rows, (#[trigger] rs[i]).path@),
    ensures
        insert_all_spec(rows, rs).len() == rows.len() + rs.len(),
        insert_all_spec(rows, rs).take(rows.len() as int) == rows,
        forall|i: int|
            0 <= i < rs.len() ==> (#[trigger] insert_all_spec(rows, rs)[rows.len() + i]).path@
                == rs[i].path@,
    decreases rs.len(),
{
    if rs.len() == 0 {
        assert(rows.take(rows.len() as int) =~= rows);
    } else {
        let t = rs.drop_last();
        assert forall|i: int, j: int| 0 <= i < j < t.len() implies (#[trigger] t[i]).path@ != (#[trigger] t[j]).path@ by {
            assert(t[i] == rs[i] && t[j] == rs[j]);
        }
        assert forall|i: int| 0 <= i < t.len() implies !has_path(rows, (#[trigger] t[i]).path@) by {
            assert(t[i] == rs[i]);
        }
        lemma_insert_all_distinct(rows, t);
        let b = insert_all_spec(rows, t);
        let last = rs.last();
        assert(rs[rs.len() - 1] == last);
        if has_path(b, last.path@) {
            let i = choose|i: int| 0 <= i < b.len() && (#[trigger] b[i]).path@ == last.path@;
            if i < rows.len() {
                assert(b.take(rows.len() as int)[i] == rows[i]);
                assert(has_path(rows, last.path@));
            } else {
                let k = i - rows.len();
                assert(b[rows.len() + k].path@ == t[k].path@);
                assert(t[k] == rs[k]);
                assert(rs[k].path@ != rs[rs.len() - 1].path@);
            }
        }
        assert(!has_path(b, last.path@));
        let a = insert_all_spec(rows, rs);
        assert(a == b.push(row_of(b.len() + 1 as int, last)));
        assert(a.take(rows.len() as int) =~= b.take(rows.len() as int));
        assert forall|i: int| 0 <= i < rs.len() implies (#[trigger] a[rows.len() + i]).path@ == rs[i].path@ by {
            if i < rs.len() - 1 {
                assert(a[rows.len() + i] == b[rows.len() + i]);
                assert(t[i] == rs[i]);
            }
        }
    }
}

/// Paths are unique and ids run 1, 2, ... in row order.
pub open spec fn rows_wf(rows: Seq<Track>) -> bool {
    &&& rows.len() <= CATALOG_CAPACITY
    &&& forall|i: int| 0 <= i < rows.len() ==> (#[trigger] rows[i]).id as int == i + 1
    &&& forall|i: int, j: int|
        0 <= i < j < rows.len() ==> (#[trigger] rows[i]).path@ != (#[trigger] rows[j]).path@
}

/// The number of rows before page `page` (counting from one) of pages of
/// `page_size` rows: `None` for page zero, or where the count does not fit
/// in a `u64`.
pub fn page_offset(page: u64, page_size: u64) -> (r: Option<u64>)
    ensures
        page == 0 ==> r is None,
        page > 0 && (page - 1) * page_size <= u64::MAX ==> r == Some(((page - 1) * page_size) as u64),
        page > 0 && (page - 1) * page_size > u64::MAX ==> r is None,
{
    if page == 0 {
        None
    } else {
        (page - 1).checked_mul(page_size)
    }
}

/// An in-memory catalog.
pub struct Catalog {
    rows: Vec<Track>,
}

impl Catalog {
    pub closed spec fn rows(&self) -> Seq<Track> {
        self.rows@
    }

    pub open spec fn wf(&self) -> bool {
        rows_wf(self.rows())
    }

    pub fn new() -> (r: Catalog)
        ensures
            r.wf(),
            r.rows() == Seq::<Track>::empty(),
    {
        Catalog { rows: Vec::new() }
    }

    /// How many rows the catalog holds.
    pub fn count(&self) -> (r: usize)
        ensures
            r == self.rows().len(),
    {
        self.rows.len()
    }

    /// The rows, in the order they were inserted.
    pub fn tracks(&self) -> (r: &Vec<Track>)
        ensures
            r@ == self.rows(),
    {
        &self.rows
    }

    /// Whether a row has the path `path`.
    pub fn contains_path(&self, path: &String) -> (r: bool)
        ensures
            r == has_path(self.rows(), path@),
    {
        let mut i: usize = 0;
        while i < self.rows.len()
            invariant
                0 <= i <= self.rows@.len(),
                forall|j: int| 0 <= j < i ==> (#[trigger] self.rows@[j]).path@ != path@,
            decreases self.rows@.len() - i,
        {
            if self.rows[i].path == *path {
                return true;
            }
            i = i + 1;
        }
        false
    }

    /// Stores `rec` unless a row has its path already (then nothing changes
    /// and the answer is `Ok(false)`). Fails with `Full`, changing nothing,
    /// where the catalog is full.
    pub fn insert_or_ignore(&mut self, rec: TrackRecord) -> (r: Result<bool, PersistenceError>)
        requires
            old(self).wf(),
        ensures
            final(self).wf(),
            final(self).rows() == insert_spec(old(self).rows(), rec),
            r matches Ok(false) <==> has_path(old(self).rows(), rec.path@),
            r matches Ok(true) <==> !has_path(old(self).rows(), rec.path@) && old(self).rows().len()
                < CATALOG_CAPACITY,
            r matches Err(PersistenceError::Full) <==> !has_path(old(self).rows(), rec.path@)
                && old(self).rows().len() >= CATALOG_CAPACITY,
            r is Ok || r matches Err(PersistenceError::Full),
    {
        if self.contains_path(&rec.path) {
            return Ok(false);
        }
        let n = self.rows.len();
        if n >= CATALOG_CAPACITY {
            return Err(PersistenceError::Full);
        }
        let length: u16 = match rec.length_seconds {
            Some(s) => if s < 0 {
                0u16
            } else if s > 65535 {
                65535u16
            } else {
                s as u16
            },
            None => 0u16,
        };
        let ghost old_rows = self.rows@;
        let ghost rec_v = rec;
        let TrackRecord { path, title, artist, album, genre, length_seconds: _ } = rec;
        let t = Track { id: (n + 1) as u16, length, title, artist, album, genre, path };
        self.rows.push(t);
        proof {
            assert(self.rows@ =~= old_rows.push(row_of(n + 1, rec_v)));
            assert forall|i: int, j: int| 0 <= i < j < self.rows@.len() implies (
            #[trigger] self.rows@[i]).path@ != (#[trigger] self.rows@[j]).path@ by {
                if j == n {
                    assert(old_rows[i] == self.rows@[i]);
                }
            }
        }
        Ok(true)
    }
}

} // verus!
