//! The progress record of one upload session and every change the upload
//! driver and the cancel command make to it. The host keeps the records in a
//! map behind a lock and hands one record at a time to these functions.
use vstd::prelude::*;
use crate::composer::texts;
use crate::errors::AppError;
use crate::model::{FailedUpload, UploadRequest, Webhook};
use crate::security::{trimmed, webhook_url_shape, InputValidator, MAX_URL_BYTES};
use crate::text::blen;
use crate::driver::{effective_max_images, spec_effective_max};
use crate::text::{append, owned};

verus! {

/// Where a session stands. Only an active session changes.
#[derive(Debug, Clone, Copy, PartialEq, Eq, Structural)]
pub enum SessionStatus {
    Active,
    Completed,
    Failed,
    Cancelled,
}

/// A snapshot of one session as the host shows it.
#[derive(Debug, Clone)]
pub struct UploadProgress {
    pub total_images: usize,
    pub completed: usize,
    pub current_image: Option<String>,
    /// Percent done of the current step, 0 to 100.
    pub current_progress: u8,
    pub failed_uploads: Vec<FailedUpload>,
    pub successful_uploads: Vec<String>,
    pub session_status: SessionStatus,
    /// Seconds.
    pub estimated_time_remaining: Option<u64>,
}

/// The paths of the failed entries.
pub open spec fn failed_paths(fs: Seq<FailedUpload>) -> Seq<Seq<char>> {
    fs.map_values(|f: FailedUpload| f.file_path@)
}

impl UploadProgress {
    /// The paths uploaded so far.
    pub open spec fn succeeded(&self) -> Seq<Seq<char>> {
        texts(self.successful_uploads@)
    }

    /// The paths that failed so far.
    pub open spec fn failed(&self) -> Seq<Seq<char>> {
        failed_paths(self.failed_uploads@)
    }

    /// The record's invariant: every path counted once, in one list only.
    pub open spec fn wf(&self) -> bool {
        &&& self.completed == self.successful_uploads@.len() + self.failed_uploads@.len()
        &&& self.completed <= self.total_images
        &&& self.current_progress <= 100
        &&& self.succeeded().no_duplicates()
        &&& self.failed().no_duplicates()
        &&& forall|p: Seq<char>| self.succeeded().contains(p) ==> !self.failed().contains(p)
    }

    pub open spec fn is_active(&self) -> bool {
        self.session_status == SessionStatus::Active
    }

    /// A fresh, active session over `total_images` files.
    pub fn new(total_images: usize) -> (r: Self)
        ensures
            r.wf(),
            r.is_active(),
            r.total_images == total_images,
            r.completed == 0,
            r.successful_uploads@.len() == 0,
            r.failed_uploads@.len() == 0,
            r.current_image.is_none(),
            r.estimated_time_remaining.is_none(),
    {
        let r = UploadProgress {
            total_images,
            completed: 0,
            current_image: None,
            current_progress: 0,
            failed_uploads: Vec::new(),
            successful_uploads: Vec::new(),
            session_status: SessionStatus::Active,
            estimated_time_remaining: None,
        };
        assert(r.succeeded() =~= Seq::<Seq<char>>::empty());
        assert(r.failed() =~= Seq::<Seq<char>>::empty());
        r
    }

    /// The status as the host names it.
    pub fn status_text(&self) -> (r: String)
        ensures
            self.session_status == SessionStatus::Active ==> r@ == "active"@,
            self.session_status == SessionStatus::Completed ==> r@ == "completed"@,
            self.session_status == SessionStatus::Failed ==> r@ == "failed"@,
            self.session_status == SessionStatus::Cancelled ==> r@ == "cancelled"@,
    {
        match self.session_status {
            SessionStatus::Active => owned("active"),
            SessionStatus::Completed => owned("completed"),
            SessionStatus::Failed => owned("failed"),
            SessionStatus::Cancelled => owned("cancelled"),
        }
    }
}

/// Whether the driver must stop: the session was cancelled, or is gone.
pub fn is_session_cancelled(progress: Option<&UploadProgress>) -> (r: bool)
    ensures
        r == match progress {
            Some(p) => p.session_status == SessionStatus::Cancelled,
            None => true,
        },
{
    match progress {
        Some(p) => p.session_status == SessionStatus::Cancelled,
        None => true,
    }
}

/// The fields that every change leaves alone unless it says otherwise.
pub open spec fn same_lists(a: UploadProgress, b: UploadProgress) -> bool {
    &&& a.total_images == b.total_images
    &&& a.completed == b.completed
    &&& a.successful_uploads == b.successful_uploads
    &&& a.failed_uploads == b.failed_uploads
}

/// Ends an active session as cancelled.
pub fn mark_session_cancelled(progress: &mut UploadProgress)
    requires
        old(progress).wf(),
    ensures
        final(progress).wf(),
        same_lists(*old(progress), *final(progress)),
        old(progress).is_active() ==> final(progress).session_status == SessionStatus::Cancelled
            && final(progress).estimated_time_remaining == Some(0u64),
        final(progress).current_image == old(progress).current_image,
        final(progress).current_progress == old(progress).current_progress,
        !old(progress).is_active() ==> *final(progress) == *old(progress),
{
    if progress.session_status == SessionStatus::Active {
        progress.session_status = SessionStatus::Cancelled;
        progress.estimated_time_remaining = Some(0);
    }
}

/// Ends an active session as completed.
pub fn mark_session_completed(progress: &mut UploadProgress)
    requires
        old(progress).wf(),
    ensures
        final(progress).wf(),
        same_lists(*old(progress), *final(progress)),
        old(progress).is_active() ==> final(progress).session_status == SessionStatus::Completed
            && final(progress).estimated_time_remaining == Some(0u64),
        final(progress).current_image == old(progress).current_image,
        final(progress).current_progress == old(progress).current_progress,
        !old(progress).is_active() ==> *final(progress) == *old(progress),
{
    if progress.session_status == SessionStatus::Active {
        progress.session_status = SessionStatus::Completed;
        progress.estimated_time_remaining = Some(0);
    }
}

/// Ends an active session as failed.
pub fn mark_session_failed(progress: &mut UploadProgress)
    requires
        old(progress).wf(),
    ensures
        final(progress).wf(),
        same_lists(*old(progress), *final(progress)),
        old(progress).is_active() ==> final(progress).session_status == SessionStatus::Failed
            && final(progress).estimated_time_remaining == Some(0u64),
        final(progress).current_image == old(progress).current_image,
        final(progress).current_progress == old(progress).current_progress,
        !old(progress).is_active() ==> *final(progress) == *old(progress),
{
    if progress.session_status == SessionStatus::Active {
        progress.session_status = SessionStatus::Failed;
        progress.estimated_time_remaining = Some(0);
    }
}

/// The cancel command: only an active session can be cancelled.
pub fn cancel_session(progress: &mut UploadProgress, session_id: &str) -> (r: Result<(), AppError>)
    requires
        old(progress).wf(),
    ensures
        final(progress).wf(),
        same_lists(*old(progress), *final(progress)),
        r.is_ok() == old(progress).is_active(),
        r.is_ok() ==> final(progress).session_status == SessionStatus::Cancelled
            && final(progress).estimated_time_remaining == Some(0u64),
        final(progress).current_image == old(progress).current_image,
        final(progress).current_progress == old(progress).current_progress,
        r.is_err() ==> *final(progress) == *old(progress) && r matches Err(AppError::Validation { .. }),
{
    if progress.session_status == SessionStatus::Active {
        mark_session_cancelled(progress);
        Ok(())
    } else {
        Err(AppError::validation("session_id", "Session is not active"))
    }
}

/// Shows the file now being worked on.
pub fn update_progress_current(progress: &mut UploadProgress, file_path: String)
    requires
        old(progress).wf(),
    ensures
        final(progress).wf(),
        same_lists(*old(progress), *final(progress)),
        final(progress).session_status == old(progress).session_status,
        old(progress).is_active() ==> final(progress).current_image == Some(file_path)
            && final(progress).current_progress == 0,
        !old(progress).is_active() ==> *final(progress) == *old(progress),
{
    if progress.session_status == SessionStatus::Active {
        progress.current_image = Some(file_path);
        progress.current_progress = 0;
    }
}

/// The label of a step on one file: "<phase> - <file name>".
pub fn phase_label(phase: &str, file_name: &str) -> (r: String)
    ensures
        r@ == phase@ + " - "@ + file_name@,
{
    let mut s = owned(phase);
    append(&mut s, " - ");
    append(&mut s, file_name);
    s
}

fn find_success(v: &Vec<String>, path: &String) -> (r: Option<usize>)
    ensures
        match r {
            Some(i) => i < v@.len() && texts(v@)[i as int] == path@,
            None => !texts(v@).contains(path@),
        },
{
    let mut i: usize = 0;
    while i < v.len()
        invariant
            i <= v@.len(),
            forall|j: int| 0 <= j < i ==> #[trigger] texts(v@)[j] != path@,
        decreases v@.len() - i,
    {
        if v[i] == *path {
            return Some(i);
        }
        i += 1;
    }
    None
}

fn find_failure(v: &Vec<FailedUpload>, path: &String) -> (r: Option<usize>)
    ensures
        match r {
            Some(i) => i < v@.len() && failed_paths(v@)[i as int] == path@,
            None => !failed_paths(v@).contains(path@),
        },
{
    let mut i: usize = 0;
    while i < v.len()
        invariant
            i <= v@.len(),
            forall|j: int| 0 <= j < i ==> #[trigger] failed_paths(v@)[j] != path@,
        decreases v@.len() - i,
    {
        if v[i].file_path == *path {
            return Some(i);
        }
        i += 1;
    }
    None
}

/// Records that `file_path` was uploaded. A prior failure of the path is
/// removed, so the count stays; a path already uploaded is not counted again;
/// a record never counts more files than its session has.
pub fn update_progress_success(progress: &mut UploadProgress, file_path: String)
    requires
        old(progress).wf(),
    ensures
        final(progress).wf(),
        final(progress).session_status == old(progress).session_status,
        final(progress).total_images == old(progress).total_images,
        ({
            let o = *old(progress);
            let n = *final(progress);
            let p = file_path@;
            if !o.is_active() || o.succeeded().contains(p) {
                same_lists(o, n)
            } else if o.failed().contains(p) {
                &&& n.succeeded() == o.succeeded().push(p)
                &&& n.failed() == o.failed().remove(o.failed().index_of(p))
                &&& n.failed_uploads@ == o.failed_uploads@.remove(o.failed().index_of(p))
                &&& n.completed == o.completed
            } else if o.completed < o.total_images {
                &&& n.succeeded() == o.succeeded().push(p)
                &&& n.failed_uploads == o.failed_uploads
                &&& n.completed == o.completed + 1
            } else {
                same_lists(o, n)
            }
        }),
        final(progress).succeeded().contains(file_path@) || !old(progress).is_active()
            || (!old(progress).succeeded().contains(file_path@) && !old(progress).failed().contains(file_path@)
                && old(progress).completed == old(progress).total_images),
{
    if progress.session_status != SessionStatus::Active {
        return;
    }
    let ghost o = *progress;
    let ghost p = file_path@;
    if let Some(i) = find_success(&progress.successful_uploads, &file_path) {
        assert(o.succeeded()[i as int] == p);
        return;
    }
    match find_failure(&progress.failed_uploads, &file_path) {
        Some(j) => {
            proof {
                o.failed().index_of_first_ensures(p);
                assert(o.failed().contains(p));
                let k = o.failed().index_of(p);
                assert(o.failed()[k] == p);
                assert(k == j as int) by {
                    if k != j as int {
                        assert(o.failed()[j as int] == p);
                    }
                }
            }
            progress.failed_uploads.remove(j);
            progress.successful_uploads.push(file_path);
            proof {
                let n = *progress;
                assert(n.failed() =~= o.failed().remove(j as int));
                assert(n.succeeded() =~= o.succeeded().push(p));
                assert(n.succeeded()[n.succeeded().len() - 1] == p);
                assert forall|q: Seq<char>| n.succeeded().contains(q) implies !n.failed().contains(q) by {
                    if n.failed().contains(q) {
                        let t = choose|t: int| 0 <= t < n.failed().len() && n.failed()[t] == q;
                        let t2 = if t < j { t } else { t + 1 };
                        assert(o.failed()[t2] == q);
                        assert(t2 != j as int);
                        if q == p {
                            assert(o.failed()[j as int] == p);
                            assert(o.failed().no_duplicates());
                            assert(false);
                        } else {
                            let u = choose|u: int| 0 <= u < n.succeeded().len() && n.succeeded()[u] == q;
                            assert(u < o.succeeded().len());
                            assert(o.succeeded()[u] == q);
                            assert(o.succeeded().contains(q));
                            assert(o.failed().contains(q));
                            assert(false);
                        }
                    }
                }
                assert forall|a: int, b: int| 0 <= a < b < n.succeeded().len() implies n.succeeded()[a] != n.succeeded()[b] by {
                    if b == n.succeeded().len() - 1 {
                        assert(!o.succeeded().contains(p));
                        assert(o.succeeded()[a] == n.succeeded()[a]);
                    }
                }
                assert forall|a: int, b: int| 0 <= a < b < n.failed().len() implies n.failed()[a] != n.failed()[b] by {
                    let a2 = if a < j { a } else { a + 1 };
                    let b2 = if b < j { b } else { b + 1 };
                    assert(o.failed()[a2] == n.failed()[a]);
                    assert(o.failed()[b2] == n.failed()[b]);
                }
            }
        },
        None => {
            if progress.completed < progress.total_images {
                progress.successful_uploads.push(file_path);
                progress.completed = progress.completed + 1;
                proof {
                    let n = *progress;
                    assert(n.failed() =~= o.failed());
                    assert(n.succeeded() =~= o.succeeded().push(p));
                    assert(n.succeeded()[n.succeeded().len() - 1] == p);
                    assert forall|q: Seq<char>| n.succeeded().contains(q) implies !n.failed().contains(q) by {
                        let u = choose|u: int| 0 <= u < n.succeeded().len() && n.succeeded()[u] == q;
                        if u < o.succeeded().len() {
                            assert(o.succeeded()[u] == q);
                        }
                    }
                    assert forall|a: int, b: int| 0 <= a < b < n.succeeded().len() implies n.succeeded()[a] != n.succeeded()[b] by {
                        if b == n.succeeded().len() - 1 {
                            assert(o.succeeded()[a] == n.succeeded()[a]);
                        }
                    }
                }
            }
        },
    }
}

/// What a failure report does to a record: a path already uploaded stays
/// uploaded; a path that already failed has its entry updated and its retry
/// count raised; a new path gets an entry and is counted, unless the record
/// already counts every file of its session.
pub open spec fn failure_recorded(o: UploadProgress, n: UploadProgress, p: Seq<char>, error: Seq<char>, retryable: bool) -> bool {
    if !o.is_active() || o.succeeded().contains(p) {
        same_lists(o, n)
    } else if o.failed().contains(p) {
        let j = o.failed().index_of(p);
        let f = n.failed_uploads@[j];
        &&& n.successful_uploads == o.successful_uploads
        &&& n.completed == o.completed
        &&& n.failed_uploads@.len() == o.failed_uploads@.len()
        &&& forall|k: int| 0 <= k < n.failed_uploads@.len() && k != j ==> n.failed_uploads@[k] == o.failed_uploads@[k]
        &&& f.file_path@ == p && f.error@ == error && f.is_retryable == retryable
        &&& f.retry_count as int == if o.failed_uploads@[j].retry_count == u32::MAX {
            u32::MAX as int
        } else {
            o.failed_uploads@[j].retry_count + 1
        }
    } else if o.completed < o.total_images {
        let f = n.failed_uploads@.last();
        &&& n.successful_uploads == o.successful_uploads
        &&& n.completed == o.completed + 1
        &&& n.failed_uploads@.drop_last() == o.failed_uploads@
        &&& n.failed_uploads@.len() == o.failed_uploads@.len() + 1
        &&& f.file_path@ == p && f.error@ == error && f.is_retryable == retryable && f.retry_count == 0
    } else {
        same_lists(o, n)
    }
}

fn record_failure(progress: &mut UploadProgress, file_path: String, error: String, is_retryable: bool)
    requires
        old(progress).wf(),
    ensures
        final(progress).wf(),
        final(progress).session_status == old(progress).session_status,
        final(progress).total_images == old(progress).total_images,
        failure_recorded(*old(progress), *final(progress), file_path@, error@, is_retryable),
{
    if progress.session_status != SessionStatus::Active {
        return;
    }
    let ghost o = *progress;
    let ghost p = file_path@;
    if let Some(i) = find_success(&progress.successful_uploads, &file_path) {
        assert(o.succeeded()[i as int] == p);
        return;
    }
    match find_failure(&progress.failed_uploads, &file_path) {
        Some(j) => {
            proof {
                o.failed().index_of_first_ensures(p);
                assert(o.failed().contains(p));
                let k = o.failed().index_of(p);
                assert(k == j as int) by {
                    if k != j as int {
                        assert(o.failed()[j as int] == p);
                    }
                }
            }
            let count = progress.failed_uploads[j].retry_count;
            let next = if count == u32::MAX { count } else { count + 1 };
            let entry = FailedUpload { file_path, error, retry_count: next, is_retryable };
            progress.failed_uploads[j] = entry;
            proof {
                let n = *progress;
                assert(n.failed() =~= o.failed());
                assert(n.succeeded() =~= o.succeeded());
            }
        },
        None => {
            if progress.completed < progress.total_images {
                let entry = FailedUpload { file_path, error, retry_count: 0, is_retryable };
                progress.failed_uploads.push(entry);
                progress.completed = progress.completed + 1;
                proof {
                    let n = *progress;
                    assert(n.failed() =~= o.failed().push(p));
                    assert(n.succeeded() =~= o.succeeded());
                    assert(n.failed_uploads@.drop_last() =~= o.failed_uploads@);
                    assert forall|q: Seq<char>| n.succeeded().contains(q) implies !n.failed().contains(q) by {
                        let u = choose|u: int| 0 <= u < n.succeeded().len() && n.succeeded()[u] == q;
                        assert(o.succeeded()[u] == q);
                        if n.failed().contains(q) {
                            let t = choose|t: int| 0 <= t < n.failed().len() && n.failed()[t] == q;
                            if t < o.failed().len() {
                                assert(o.failed()[t] == q);
                            }
                        }
                    }
                    assert forall|a: int, b: int| 0 <= a < b < n.failed().len() implies n.failed()[a] != n.failed()[b] by {
                        if b == n.failed().len() - 1 {
                            assert(o.failed()[a] == n.failed()[a]);
                        }
                    }
                }
            }
        },
    }
}

/// Records that uploading `file_path` failed with `error`.
pub fn update_progress_failure(progress: &mut UploadProgress, file_path: String, error: String, is_retryable: bool)
    requires
        old(progress).wf(),
    ensures
        final(progress).wf(),
        final(progress).session_status == old(progress).session_status,
        final(progress).total_images == old(progress).total_images,
        failure_recorded(*old(progress), *final(progress), file_path@, error@, is_retryable),
{
    record_failure(progress, file_path, error, is_retryable);
}

/// The error text of a file that failed with its whole group.
pub open spec fn group_error(group_id: Seq<char>, error: Seq<char>) -> Seq<char> {
    "[Group: "@ + group_id + "] "@ + error
}

/// Records that `file_path` failed because its group failed; the error names
/// the group.
pub fn update_progress_group_failure(
    progress: &mut UploadProgress,
    file_path: String,
    error: String,
    is_retryable: bool,
    group_id: String,
)
    requires
        old(progress).wf(),
    ensures
        final(progress).wf(),
        final(progress).session_status == old(progress).session_status,
        final(progress).total_images == old(progress).total_images,
        failure_recorded(*old(progress), *final(progress), file_path@, group_error(group_id@, error@), is_retryable),
{
    let mut text = owned("[Group: ");
    append(&mut text, group_id.as_str());
    append(&mut text, "] ");
    append(&mut text, error.as_str());
    record_failure(progress, file_path, text, is_retryable);
}

/// Seconds left: `remaining / rate` with `rate = completed / elapsed`, and
/// 30% more for compression, rounded up; at most `u64::MAX`.
pub open spec fn eta_seconds(completed: int, total: int, elapsed_ms: int) -> int {
    let remaining = total - completed;
    let exact = (13 * remaining * elapsed_ms + 10000 * completed - 1) / (10000 * completed);
    if exact > u64::MAX { u64::MAX as int } else { exact }
}

/// Updates the time estimate after `completed` of `total` steps took
/// `elapsed_ms` milliseconds; nothing is known before the first step.
pub fn update_time_estimate(progress: &mut UploadProgress, elapsed_ms: u64, completed: usize, total: usize)
    requires
        old(progress).wf(),
        completed <= total,
    ensures
        final(progress).wf(),
        same_lists(*old(progress), *final(progress)),
        final(progress).session_status == old(progress).session_status,
        completed > 0 && old(progress).is_active() ==> final(progress).estimated_time_remaining == Some(
            eta_seconds(completed as int, total as int, elapsed_ms as int) as u64,
        ),
        completed == 0 || !old(progress).is_active() ==> *final(progress) == *old(progress),
{
    if completed == 0 || progress.session_status != SessionStatus::Active {
        return;
    }
    let remaining = (total - completed) as u128;
    let e = elapsed_ms as u128;
    assert(remaining * e <= u128::MAX) by (nonlinear_arith)
        requires remaining <= u64::MAX, e <= u64::MAX;
    let product = remaining * e;
    let denom = 10000u128 * (completed as u128);
    let q1 = product / denom;
    let r1 = product % denom;
    let ghost d = denom as int;
    let ghost a = product as int;
    assert(a == (q1 as int) * d + (r1 as int) && 0 <= r1 < d) by (nonlinear_arith)
        requires d > 0, q1 as int == a / d, r1 as int == a % d;
    assert(13 * (total as int - completed as int) * (elapsed_ms as int) == 13 * a) by (nonlinear_arith)
        requires a == (remaining as int) * (e as int), remaining as int == total as int - completed as int, e as int == elapsed_ms as int;
    assert(eta_seconds(completed as int, total as int, elapsed_ms as int) == if (13 * a + d - 1) / d > u64::MAX {
        u64::MAX as int
    } else {
        (13 * a + d - 1) / d
    });
    let estimate: u64 = if q1 > u64::MAX as u128 {
        proof {
            let q = q1 as int;
            let r = r1 as int;
            assert(13 * a + d - 1 >= (u64::MAX as int + 1) * d) by (nonlinear_arith)
                requires a == q * d + r, r >= 0, d >= 1, q >= u64::MAX as int + 1;
            assert((13 * a + d - 1) / d >= u64::MAX as int + 1) by (nonlinear_arith)
                requires 13 * a + d - 1 >= (u64::MAX as int + 1) * d, d >= 1;
        }
        u64::MAX
    } else {
        assert(13 * r1 + denom - 1 < 14 * denom) by (nonlinear_arith)
            requires r1 < denom;
        let tail = (13 * r1 + denom - 1) / denom;
        let exact = 13 * q1 + tail;
        proof {
            let q = q1 as int;
            let r = r1 as int;
            assert(13 * a + d - 1 == 13 * q * d + (13 * r + d - 1)) by (nonlinear_arith)
                requires a == q * d + r;
            assert((13 * q * d + (13 * r + d - 1)) / d == 13 * q + (13 * r + d - 1) / d) by (nonlinear_arith)
                requires d > 0, r >= 0;
        }
        if exact > u64::MAX as u128 {
            u64::MAX
        } else {
            exact as u64
        }
    };
    progress.estimated_time_remaining = Some(estimate);
}

/// Shows the step now under way on a file, as "<phase> - <file name>".
pub fn update_progress_current_with_phase(progress: &mut UploadProgress, file_name: &str, phase: &str, progress_percent: u8)
    requires
        old(progress).wf(),
    ensures
        final(progress).wf(),
        same_lists(*old(progress), *final(progress)),
        final(progress).session_status == old(progress).session_status,
        old(progress).is_active() ==> (final(progress).current_image matches Some(s) && s@ == phase@ + " - "@ + file_name@),
        old(progress).is_active() ==> final(progress).current_progress == if progress_percent > 100 { 100 } else { progress_percent },
        !old(progress).is_active() ==> *final(progress) == *old(progress),
{
    if progress.session_status == SessionStatus::Active {
        progress.current_image = Some(phase_label(phase, file_name));
        progress.current_progress = if progress_percent > 100 { 100 } else { progress_percent };
    }
}

/// In every well-formed record the count of finished files is the number of
/// uploaded files plus the number of failed ones, and never passes the total.
pub proof fn lemma_completed_counts(p: UploadProgress)
    requires
        p.wf(),
    ensures
        p.completed == p.successful_uploads@.len() + p.failed_uploads@.len(),
        p.completed <= p.total_images,
{
}

/// A path is never both uploaded and failed.
pub proof fn lemma_one_list_per_path(p: UploadProgress, path: Seq<char>)
    requires
        p.wf(),
    ensures
        !(p.succeeded().contains(path) && p.failed().contains(path)),
{
}

/// Success wins: once a path is uploaded, a later failure report leaves it
/// uploaded and keeps it out of the failures.
pub proof fn lemma_success_wins(o: UploadProgress, n: UploadProgress, path: Seq<char>, error: Seq<char>, retryable: bool)
    requires
        o.wf(),
        o.succeeded().contains(path),
        failure_recorded(o, n, path, error, retryable),
    ensures
        n.succeeded().contains(path),
        !n.failed().contains(path),
{
}

/// What the driver does after a step of a session.
#[derive(Debug, Clone, Copy, PartialEq, Eq, Structural)]
pub enum SessionOutcome {
    /// Go on with the next group.
    Continue,
    /// The session was cancelled: stop without a completed or failed event.
    Cancelled,
    /// A group failed: the session is failed.
    Failed,
    /// Every group was posted: the session is completed.
    Completed,
}

/// Decides how a session goes on after a group was posted (`group_ok`) with
/// `groups_left` groups still to post, and records a terminal status.
pub fn conclude_step(progress: &mut UploadProgress, group_ok: bool, groups_left: usize) -> (r: SessionOutcome)
    requires
        old(progress).wf(),
    ensures
        final(progress).wf(),
        same_lists(*old(progress), *final(progress)),
        old(progress).session_status == SessionStatus::Cancelled ==> r == SessionOutcome::Cancelled
            && *final(progress) == *old(progress),
        old(progress).is_active() && !group_ok ==> r == SessionOutcome::Failed
            && final(progress).session_status == SessionStatus::Failed,
        old(progress).is_active() && group_ok && groups_left == 0 ==> r == SessionOutcome::Completed
            && final(progress).session_status == SessionStatus::Completed,
        old(progress).is_active() && group_ok && groups_left > 0 ==> r == SessionOutcome::Continue
            && *final(progress) == *old(progress),
        !old(progress).is_active() && old(progress).session_status != SessionStatus::Cancelled ==> r
            == SessionOutcome::Cancelled && *final(progress) == *old(progress),
{
    if progress.session_status != SessionStatus::Active {
        return SessionOutcome::Cancelled;
    }
    if !group_ok {
        mark_session_failed(progress);
        return SessionOutcome::Failed;
    }
    if groups_left == 0 {
        mark_session_completed(progress);
        return SessionOutcome::Completed;
    }
    SessionOutcome::Continue
}

/// The event the host is sent for an outcome; none while the session goes on.
pub fn outcome_event(outcome: SessionOutcome) -> (r: Option<String>)
    ensures
        outcome == SessionOutcome::Continue ==> r.is_none(),
        outcome == SessionOutcome::Cancelled ==> (r matches Some(e) && e@ == "upload-cancelled"@),
        outcome == SessionOutcome::Failed ==> (r matches Some(e) && e@ == "upload-failed"@),
        outcome == SessionOutcome::Completed ==> (r matches Some(e) && e@ == "upload-completed"@),
{
    match outcome {
        SessionOutcome::Continue => None,
        SessionOutcome::Cancelled => Some(owned("upload-cancelled")),
        SessionOutcome::Failed => Some(owned("upload-failed")),
        SessionOutcome::Completed => Some(owned("upload-completed")),
    }
}

/// Whether a webhook URL passes validation.
pub open spec fn url_ok(url: Seq<char>) -> bool {
    trimmed(url).len() > 0 && webhook_url_shape(trimmed(url)) && blen(trimmed(url)) <= MAX_URL_BYTES
}

/// Starts a session: the webhook URL and the upload settings are checked
/// first, and only then is a record made, active, over every requested file.
/// On a forum channel the number of images per message is capped at 10
/// before it is checked, so a forum request for 15 goes ahead with 10.
pub fn start_session(webhook: &Webhook, request: &UploadRequest) -> (r: Result<UploadProgress, AppError>)
    ensures
        r.is_ok() == (url_ok(webhook.url@) && 1 <= spec_effective_max(request.is_forum_channel, request.max_images_per_message) <= 10),
        !url_ok(webhook.url@) && trimmed(webhook.url@).len() > 0 && !webhook_url_shape(trimmed(webhook.url@))
            ==> r matches Err(AppError::InvalidWebhook { .. }),
        url_ok(webhook.url@) && !(1 <= spec_effective_max(request.is_forum_channel, request.max_images_per_message) <= 10)
            ==> r matches Err(AppError::Validation { .. }),
        r matches Ok(p) ==> p.wf() && p.is_active() && p.total_images == request.file_paths@.len() && p.completed == 0,
{
    match InputValidator::validate_webhook_url(webhook.url.as_str()) {
        Err(e) => return Err(e),
        Ok(()) => {},
    }
    let per_message = effective_max_images(request.is_forum_channel, request.max_images_per_message);
    match InputValidator::validate_upload_settings(per_message, request.group_by_metadata) {
        Err(e) => return Err(e),
        Ok(()) => {},
    }
    Ok(UploadProgress::new(request.file_paths.len()))
}

/// Whether a path is recorded as uploaded or as failed, or the record is full.
pub open spec fn accounted(p: UploadProgress, path: Seq<char>) -> bool {
    p.succeeded().contains(path) || p.failed().contains(path) || p.completed == p.total_images
}

proof fn lemma_failure_keeps_accounted(o: UploadProgress, n: UploadProgress, p: Seq<char>, e: Seq<char>, r: bool, q: Seq<char>)
    requires
        o.wf(),
        n.wf(),
        o.is_active(),
        n.total_images == o.total_images,
        failure_recorded(o, n, p, e, r),
    ensures
        accounted(n, p),
        accounted(o, q) ==> accounted(n, q),
{
    if o.succeeded().contains(p) {
    } else if o.failed().contains(p) {
        assert(n.failed() =~= o.failed()) by {
            let j = o.failed().index_of(p);
            o.failed().index_of_first_ensures(p);
            assert forall|k: int| 0 <= k < n.failed().len() implies n.failed()[k] == o.failed()[k] by {
                if k != j {
                    assert(n.failed_uploads@[k] == o.failed_uploads@[k]);
                }
            }
        }
    } else if o.completed < o.total_images {
        assert(n.failed() =~= o.failed().push(p)) by {
            assert(n.failed_uploads@.drop_last() == o.failed_uploads@);
            assert forall|k: int| 0 <= k < o.failed().len() implies n.failed()[k] == o.failed()[k] by {
                assert(n.failed_uploads@[k] == n.failed_uploads@.drop_last()[k]);
            }
        }
        assert(n.failed()[o.failed().len() as int] == p);
        if o.failed().contains(q) {
            let t = choose|t: int| 0 <= t < o.failed().len() && o.failed()[t] == q;
            assert(n.failed()[t] == q);
        }
    }
}

/// After a group failed, the files of the groups after it, which were never
/// sent, are recorded as failed with the error naming their group, so the
/// record counts every file of the session.
pub fn fail_unsent_groups(progress: &mut UploadProgress, groups: &Vec<crate::grouper::ImageGroup>, from: usize, error: &str)
    requires
        old(progress).wf(),
    ensures
        final(progress).wf(),
        final(progress).session_status == old(progress).session_status,
        final(progress).total_images == old(progress).total_images,
        old(progress).is_active() ==> forall|j: int, i: int|
            from <= j < groups@.len() && 0 <= i < groups@[j].images@.len()
                ==> accounted(*final(progress), #[trigger] groups@[j].images@[i]@),
{
    let ghost start = *progress;
    let mut j: usize = from;
    while j < groups.len()
        invariant
            progress.wf(),
            progress.session_status == start.session_status,
            progress.total_images == start.total_images,
            start.is_active() ==> forall|jj: int, i: int|
                from <= jj < j && jj < groups@.len() && 0 <= i < groups@[jj].images@.len()
                    ==> accounted(*progress, #[trigger] groups@[jj].images@[i]@),
        decreases groups@.len() - j,
    {
        let g = &groups[j];
        let mut i: usize = 0;
        while i < g.images.len()
            invariant
                progress.wf(),
                j < groups@.len(),
                *g == groups@[j as int],
                progress.session_status == start.session_status,
                progress.total_images == start.total_images,
                start.is_active() ==> forall|jj: int, ii: int|
                    from <= jj < j && 0 <= ii < groups@[jj].images@.len()
                        ==> accounted(*progress, #[trigger] groups@[jj].images@[ii]@),
                start.is_active() ==> forall|ii: int| 0 <= ii < i ==> accounted(*progress, #[trigger] g.images@[ii]@),
            decreases g.images@.len() - i,
        {
            let ghost before = *progress;
            update_progress_group_failure(progress, g.images[i].clone(), owned(error), true, g.group_id.clone());
            proof {
                if start.is_active() {
                    let p = g.images@[i as int]@;
                    let e = group_error(g.group_id@, error@);
                    lemma_failure_keeps_accounted(before, *progress, p, e, true, p);
                    assert forall|jj: int, ii: int| from <= jj < j && 0 <= ii < groups@[jj].images@.len()
                        implies accounted(*progress, #[trigger] groups@[jj].images@[ii]@) by {
                        lemma_failure_keeps_accounted(before, *progress, p, e, true, groups@[jj].images@[ii]@);
                    }
                    assert forall|ii: int| 0 <= ii < i + 1 implies accounted(*progress, #[trigger] g.images@[ii]@) by {
                        lemma_failure_keeps_accounted(before, *progress, p, e, true, g.images@[ii]@);
                    }
                }
            }
            i += 1;
        }
        j += 1;
    }
}

} // verus!
