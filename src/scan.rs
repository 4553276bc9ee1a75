//! The decisions of a folder scan. The caller walks the folder, reads each
//! candidate in turn and writes its record; the scan job says which path
//! comes next, keeps the log of failed files, says when a progress
//! notification is due, and makes the final report.

use vstd::prelude::*;
use vstd::string::StringExecFns;
use crate::catalog::{CATALOG_CAPACITY, Track, has_path, insert_all_spec, lemma_insert_all_distinct};
use crate::extract::TrackRecord;

verus! {

/// Progress is announced on every file of a batch of at most this many.
pub const SMALL_BATCH: usize = 100;

/// In a larger batch, progress is announced on every this many files (and on
/// the last one) unless another interval is chosen.
pub const DEFAULT_PROGRESS_INTERVAL: usize = 10;

/// Why a scan could not start or could not list its folder.
#[derive(Debug)]
pub enum ScanError {
    /// The root path is not an existing directory.
    Validation,
    /// A directory could not be listed; the text is the cause.
    Traversal(String),
}

pub open spec fn scan_error_message(e: ScanError) -> Seq<char> {
    match e {
        ScanError::Validation => "Not a directory"@,
        ScanError::Traversal(c) => "Failed to read directory: "@ + c@,
    }
}

impl ScanError {
    pub fn message(&self) -> (r: String)
        ensures
            r@ == scan_error_message(*self),
    {
        match self {
            ScanError::Validation => "Not a directory".to_owned(),
            ScanError::Traversal(cause) => {
                let mut m: String = "Failed to read directory: ".to_owned();
                m.append(cause.as_str());
                m
            },
        }
    }
}

/// The check made before anything else: a root that is not an existing
/// directory fails the scan with `Validation`, before any file is read or
/// written.
pub fn validate_root(is_directory: bool) -> (r: Result<(), ScanError>)
    ensures
        r is Ok <==> is_directory,
        !is_directory ==> r matches Err(ScanError::Validation),
{
    if is_directory {
        Ok(())
    } else {
        Err(ScanError::Validation)
    }
}

/// Whether the file numbered `processed` (counting from one) of `total`
/// gets a progress notification.
pub open spec fn should_notify(processed: int, total: int, interval: int) -> bool {
    total <= SMALL_BATCH || processed % interval == 0 || processed == total
}

/// Percent done, rounded down.
pub open spec fn percent(processed: int, total: int) -> int {
    processed * 100 / total
}

/// The line of the digest for one failed file.
pub open spec fn digest_line(path: Seq<char>, message: Seq<char>) -> Seq<char> {
    path + ": "@ + message + "\n"@
}

/// The digest of an error log: one line per failed file, in order.
pub open spec fn digest(log: Seq<(Seq<char>, Seq<char>)>) -> Seq<char>
    decreases log.len(),
{
    if log.len() == 0 {
        Seq::empty()
    } else {
        digest(log.drop_last()) + digest_line(log.last().0, log.last().1)
    }
}

pub open spec fn success_message() -> Seq<char> {
    "No errors occurred while reading the folder.\n"@
}

/// The error log of a scan whose files fared as `outcomes` says (`None` for
/// a file that was catalogued, `Some(message)` for one that failed): one
/// entry per failed file, in candidate order.
pub open spec fn error_log(paths: Seq<Seq<char>>, outcomes: Seq<Option<Seq<char>>>) -> Seq<(Seq<char>, Seq<char>)>
    decreases outcomes.len(),
{
    if outcomes.len() == 0 {
        Seq::empty()
    } else {
        let rest = error_log(paths, outcomes.drop_last());
        match outcomes.last() {
            Some(m) => rest.push((paths[outcomes.len() - 1], m)),
            None => rest,
        }
    }
}

/// A batch in which exactly one file fails reports that one path and no
/// other: its log has the one entry and its digest the one line.
pub proof fn lemma_single_failure(paths: Seq<Seq<char>>, outcomes: Seq<Option<Seq<char>>>, j: int)
    requires
        paths.len() == outcomes.len(),
        0 <= j < outcomes.len(),
        outcomes[j] is Some,
        forall|i: int| 0 <= i < outcomes.len() && i != j ==> (#[trigger] outcomes[i]) is None,
    ensures
        error_log(paths, outcomes) == seq![(paths[j], outcomes[j]->0)],
        digest(error_log(paths, outcomes)) == digest_line(paths[j], outcomes[j]->0),
{
    lemma_error_log_single(paths, outcomes, j, outcomes.len() as int);
    assert(outcomes.take(outcomes.len() as int) =~= outcomes);
    let log = seq![(paths[j], outcomes[j]->0)];
    assert(log.drop_last() =~= Seq::<(Seq<char>, Seq<char>)>::empty());
    assert(digest(log.drop_last()) =~= Seq::<char>::empty());
    assert(digest(log) =~= digest_line(paths[j], outcomes[j]->0));
}

proof fn lemma_error_log_single(paths: Seq<Seq<char>>, outcomes: Seq<Option<Seq<char>>>, j: int, k: int)
    requires
        0 <= k <= outcomes.len(),
        0 <= j < outcomes.len(),
        outcomes[j] is Some,
        forall|i: int| 0 <= i < outcomes.len() && i != j ==> (#[trigger] outcomes[i]) is None,
    ensures
        k <= j ==> error_log(paths, outcomes.take(k)) == Seq::<(Seq<char>, Seq<char>)>::empty(),
        k > j ==> error_log(paths, outcomes.take(k)) == seq![(paths[j], outcomes[j]->0)],
    decreases k,
{
    if k > 0 {
        lemma_error_log_single(paths, outcomes, j, k - 1);
        assert(outcomes.take(k).drop_last() =~= outcomes.take(k - 1));
        assert(outcomes.take(k).last() == outcomes[k - 1]);
        if k - 1 == j {
            assert(Seq::<(Seq<char>, Seq<char>)>::empty().push((paths[j], outcomes[j]->0)) =~= seq![(paths[j], outcomes[j]->0)]);
        }
    }
}

/// A file that could not be catalogued, and why.
#[derive(Debug)]
pub struct FailedFile {
    pub path: String,
    pub message: String,
}

/// A progress notification: the file just handled, how many files are done
/// out of how many, and the percentage done (rounded down).
#[derive(Debug)]
pub struct Progress {
    pub path: String,
    pub processed: usize,
    pub total: usize,
    pub percent: u8,
}

/// One folder scan in progress.
pub struct ScanJob {
    candidates: Vec<String>,
    processed: usize,
    errors: Vec<FailedFile>,
    interval: usize,
    outcomes: Ghost<Seq<Option<Seq<char>>>>,
}

impl ScanJob {
    /// The candidate paths, in the order they are handled.
    pub closed spec fn candidates(&self) -> Seq<Seq<char>> {
        self.candidates@.map_values(|p: String| p@)
    }

    /// How many candidates have been handled.
    pub closed spec fn processed(&self) -> nat {
        self.processed as nat
    }

    /// The error log: path and message of each failed file, in order.
    pub closed spec fn errors(&self) -> Seq<(Seq<char>, Seq<char>)> {
        self.errors@.map_values(|f: FailedFile| (f.path@, f.message@))
    }

    pub closed spec fn interval(&self) -> nat {
        self.interval as nat
    }

    /// How each handled file fared, in order: `None` where its record was
    /// written, `Some(message)` where it failed.
    pub closed spec fn outcomes(&self) -> Seq<Option<Seq<char>>> {
        self.outcomes@
    }

    pub closed spec fn wf(&self) -> bool {
        &&& self.processed <= self.candidates@.len()
        &&& self.interval > 0
        &&& self.outcomes@.len() == self.processed
        &&& self.errors() == error_log(self.candidates(), self.outcomes@)
    }

    /// A scan of `candidates` with the default progress interval.
    pub fn new(candidates: Vec<String>) -> (r: ScanJob)
        ensures
            r.wf(),
            r.candidates() == candidates@.map_values(|p: String| p@),
            r.processed() == 0,
            r.outcomes() == Seq::<Option<Seq<char>>>::empty(),
            r.errors() == Seq::<(Seq<char>, Seq<char>)>::empty(),
            r.interval() == DEFAULT_PROGRESS_INTERVAL,
    {
        ScanJob::with_interval(candidates, DEFAULT_PROGRESS_INTERVAL)
    }

    /// A scan of `candidates` that, in a large batch, announces progress on
    /// every `interval` files.
    pub fn with_interval(candidates: Vec<String>, interval: usize) -> (r: ScanJob)
        requires
            interval > 0,
        ensures
            r.wf(),
            r.candidates() == candidates@.map_values(|p: String| p@),
            r.processed() == 0,
            r.outcomes() == Seq::<Option<Seq<char>>>::empty(),
            r.errors() == Seq::<(Seq<char>, Seq<char>)>::empty(),
            r.interval() == interval,
    {
        let r = ScanJob {
            candidates,
            processed: 0,
            errors: Vec::new(),
            interval,
            outcomes: Ghost(Seq::empty()),
        };
        assert(r.errors() =~= Seq::<(Seq<char>, Seq<char>)>::empty());
        r
    }

    /// How many candidates the scan has.
    pub fn total(&self) -> (r: usize)
        ensures
            r == self.candidates().len(),
    {
        self.candidates.len()
    }

    /// The error log is the failed files of the outcomes so far, in order.
    pub proof fn lemma_log(&self)
        requires
            self.wf(),
        ensures
            self.errors() == error_log(self.candidates(), self.outcomes()),
            self.outcomes().len() == self.processed(),
            self.processed() <= self.candidates().len(),
    {
    }

    /// Whether every candidate has been handled.
    pub fn is_done(&self) -> (r: bool)
        requires
            self.wf(),
        ensures
            r == (self.processed() == self.candidates().len()),
    {
        self.processed == self.candidates.len()
    }

    /// The path to handle next, if any is left.
    pub fn next_path(&self) -> (r: Option<String>)
        requires
            self.wf(),
        ensures
            self.processed() < self.candidates().len() ==> (r matches Some(p) && p@
                == self.candidates()[self.processed() as int]),
            self.processed() == self.candidates().len() ==> r is None,
    {
        if self.processed < self.candidates.len() {
            Some(self.candidates[self.processed].clone())
        } else {
            None
        }
    }

    /// Records how the file returned by `next_path` fared: `Ok(())` where its
    /// record was written, `Err(message)` where it was not, which logs it and
    /// goes on. Returns the notification due for this file, if one is.
    pub fn record(&mut self, outcome: Result<(), String>) -> (r: Option<Progress>)
        requires
            old(self).wf(),
            old(self).processed() < old(self).candidates().len(),
        ensures
            final(self).wf(),
            final(self).candidates() == old(self).candidates(),
            final(self).interval() == old(self).interval(),
            final(self).processed() == old(self).processed() + 1,
            final(self).outcomes().len() == final(self).processed(),
            final(self).errors() == error_log(final(self).candidates(), final(self).outcomes()),
            final(self).outcomes() == old(self).outcomes().push(
                match outcome {
                    Ok(()) => None,
                    Err(m) => Some(m@),
                },
            ),
            final(self).errors() == match outcome {
                Ok(()) => old(self).errors(),
                Err(m) => old(self).errors().push(
                    (old(self).candidates()[old(self).processed() as int], m@),
                ),
            },
            r is Some <==> should_notify(
                final(self).processed() as int,
                final(self).candidates().len() as int,
                final(self).interval() as int,
            ),
            r matches Some(p) ==> {
                &&& p.path@ == old(self).candidates()[old(self).processed() as int]
                &&& p.processed == final(self).processed()
                &&& p.total == final(self).candidates().len()
                &&& p.percent as int == percent(p.processed as int, p.total as int)
            },
    {
        let i = self.processed;
        let ghost e0 = self.errors();
        let ghost o0 = self.outcomes@;
        let ghost ov: Option<Seq<char>> = match &outcome {
            Ok(()) => None,
            Err(m) => Some(m@),
        };
        match outcome {
            Ok(()) => {},
            Err(message) => {
                let path = self.candidates[i].clone();
                self.errors.push(FailedFile { path, message });
                assert(self.errors() =~= e0.push((self.candidates()[i as int], message@)));
            },
        }
        let total = self.candidates.len();
        assert(i < total);
        self.processed = i + 1;
        self.outcomes = Ghost(o0.push(ov));
        assert(self.outcomes@.drop_last() =~= o0);
        let done = i + 1;
        if total <= SMALL_BATCH || done % self.interval == 0 || done == total {
            let wide: u128 = (done as u128) * 100 / (total as u128);
            proof {
                let (a, b) = (done as int, total as int);
                assert(a * 100 <= b * 100) by (nonlinear_arith)
                    requires
                        a <= b,
                ;
                assert((a * 100) / b <= (b * 100) / b) by (nonlinear_arith)
                    requires
                        a * 100 <= b * 100,
                        b > 0,
                ;
                assert((b * 100) / b == 100) by (nonlinear_arith)
                    requires
                        b > 0,
                ;
            }
            Some(
                Progress {
                    path: self.candidates[i].clone(),
                    processed: done,
                    total,
                    percent: wide as u8,
                },
            )
        } else {
            None
        }
    }

    /// The error log so far, in order.
    pub fn failures(&self) -> (r: &Vec<FailedFile>)
        ensures
            r@.map_values(|f: FailedFile| (f.path@, f.message@)) == self.errors(),
    {
        &self.errors
    }

    /// The final report: the success message where no file failed, else the
    /// digest of the error log, one `path: message` line per failed file.
    pub fn finish(self) -> (r: Result<String, String>)
        ensures
            self.errors().len() == 0 ==> (r matches Ok(m) && m@ == success_message()),
            self.errors().len() > 0 ==> (r matches Err(d) && d@ == digest(self.errors())),
    {
        if self.errors.len() == 0 {
            Ok("No errors occurred while reading the folder.\n".to_owned())
        } else {
            let mut d: String = String::new();
            let mut i: usize = 0;
            while i < self.errors.len()
                invariant
                    0 <= i <= self.errors@.len(),
                    d@ == digest(self.errors().take(i as int)),
                decreases self.errors@.len() - i,
            {
                let f = &self.errors[i];
                d.append(f.path.as_str());
                d.append(": ");
                d.append(f.message.as_str());
                d.append("\n");
                proof {
                    let t = self.errors().take(i + 1);
                    assert(t.drop_last() =~= self.errors().take(i as int));
                    assert(t.last() == (f.path@, f.message@));
                    assert(d@ =~= digest(t));
                }
                i = i + 1;
            }
            assert(self.errors().take(self.errors@.len() as int) =~= self.errors());
            Err(d)
        }
    }
}

/// One corrupt file among otherwise valid ones. Once a scan has handled
/// every candidate (pairwise distinct paths) and only the file at `j` failed,
/// its log, and so the digest `finish` returns, names that path alone.
/// Writing the records of the others, in order, into a catalog that holds
/// none of the candidates and has room for them keeps every row already
/// there and adds one row for each valid file, and none for the corrupt one.
pub proof fn lemma_one_corrupt_file(job: ScanJob, j: int, rows: Seq<Track>, written: Seq<TrackRecord>)
    requires
        job.wf(),
        job.processed() == job.candidates().len(),
        forall|a: int, b: int|
            0 <= a < b < job.candidates().len() ==> job.candidates()[a] != job.candidates()[b],
        0 <= j < job.outcomes().len(),
        job.outcomes()[j] is Some,
        forall|i: int| 0 <= i < job.outcomes().len() && i != j ==> (#[trigger] job.outcomes()[i]) is None,
        written.len() == job.candidates().len() - 1,
        forall|i: int|
            0 <= i < written.len() ==> (#[trigger] written[i]).path@ == if i < j {
                job.candidates()[i]
            } else {
                job.candidates()[i + 1]
            },
        forall|i: int| 0 <= i < job.candidates().len() ==> !has_path(rows, #[trigger] job.candidates()[i]),
        rows.len() + written.len() <= CATALOG_CAPACITY,
    ensures
        job.errors() == seq![(job.candidates()[j], job.outcomes()[j]->0)],
        digest(job.errors()) == digest_line(job.candidates()[j], job.outcomes()[j]->0),
        insert_all_spec(rows, written).len() == rows.len() + written.len(),
        insert_all_spec(rows, written).take(rows.len() as int) == rows,
        forall|i: int|
            0 <= i < written.len() ==> (#[trigger] insert_all_spec(rows, written)[rows.len() + i]).path@
                == written[i].path@,
        !has_path(insert_all_spec(rows, written), job.candidates()[j]),
{
    let paths = job.candidates();
    lemma_single_failure(paths, job.outcomes(), j);
    let pos = |i: int| if i < j { i } else { i + 1 };
    assert forall|a: int, b: int| 0 <= a < b < written.len() implies (#[trigger] written[a]).path@
        != (#[trigger] written[b]).path@ by {
        assert(pos(a) < pos(b));
        assert(paths[pos(a)] != paths[pos(b)]);
    }
    assert forall|i: int| 0 <= i < written.len() implies !has_path(rows, (#[trigger] written[i]).path@) by {
        assert(written[i].path@ == paths[pos(i)]);
    }
    lemma_insert_all_distinct(rows, written);
    let after = insert_all_spec(rows, written);
    if has_path(after, paths[j]) {
        let i = choose|i: int| 0 <= i < after.len() && (#[trigger] after[i]).path@ == paths[j];
        if i < rows.len() {
            assert(after.take(rows.len() as int)[i] == rows[i]);
            assert(has_path(rows, paths[j]));
        } else {
            let k = i - rows.len();
            assert(after[rows.len() + k].path@ == written[k].path@);
            assert(written[k].path@ == paths[pos(k)]);
            assert(pos(k) != j);
        }
    }
}

} // verus!
