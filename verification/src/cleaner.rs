//! The recording cleaner: deletes recordings older than the retention time,
//! then the oldest recordings until the rest fit the size limit.
use vstd::prelude::*;
use crate::config::Config;
use crate::playlist::mp4_suffix;
use crate::text::{ends_with, has_suffix};

verus! {

/// Cleans up old recordings, by age and by total size.
pub struct Cleaner {
    pub config: Config,
    /// Recordings older than this many days are deleted.
    pub retention_days: u64,
    /// The recordings may hold at most this many mebibytes.
    pub max_size_mb: u64,
}

/// A recording file: its path, its modification time in nanoseconds since
/// the UNIX epoch (negative before it), and its size in bytes.
pub struct RecordingFile {
    pub path: String,
    pub modified_nanos: i128,
    pub size: u64,
}

/// Whether a file name has the extension `mp4`, as `Path::extension` reads
/// it: the text after the last dot, where that dot does not begin the name.
/// A name ending in `.mp4` has its last dot four characters from the end,
/// which begins the name exactly when the name is `.mp4` itself.
pub open spec fn has_mp4_extension(name: Seq<char>) -> bool {
    has_suffix(name, mp4_suffix()) && name.len() > 4
}

/// Whether `name` has the extension `mp4`.
pub fn is_mp4_file_name(name: &str) -> (r: bool)
    ensures
        r == has_mp4_extension(name@),
{
    proof { reveal_strlit(".mp4"); }
    assert(".mp4"@ == mp4_suffix());
    ends_with(name, ".mp4") && name.unicode_len() > 4
}

/// A recording older than the retention time at `now`: it was modified no
/// later than `now`, and longer than `retention_secs` seconds before it.
pub open spec fn is_stale(f: RecordingFile, now: i128, retention_secs: u64) -> bool {
    f.modified_nanos <= now && now - f.modified_nanos > retention_secs * 1_000_000_000
}

/// Retention counts whole seconds of age: a file modified exactly `k`
/// seconds before `now` is stale exactly when `k` exceeds the retention time;
/// a file exactly as old as the retention time stays, one a nanosecond older
/// is stale, and a file modified after `now` is never stale.
pub proof fn lemma_stale_in_seconds(f: RecordingFile, now: i128, retention_secs: u64, k: int)
    requires
        k >= 0,
    ensures
        f.modified_nanos == now - k * 1_000_000_000 ==> (is_stale(f, now, retention_secs) <==> k > retention_secs),
        f.modified_nanos == now - retention_secs * 1_000_000_000 ==> !is_stale(f, now, retention_secs),
        f.modified_nanos == now - retention_secs * 1_000_000_000 - 1 ==> is_stale(f, now, retention_secs),
        f.modified_nanos > now ==> !is_stale(f, now, retention_secs),
{
    let r = retention_secs as int;
    assert(k * 1_000_000_000 > r * 1_000_000_000 <==> k > r) by (nonlinear_arith);
}

/// A cleaner keeps what is younger than its retention days: with the
/// retention time of a cleanup (`retention_days` days of 86400 seconds), a
/// file `k` seconds old is stale exactly when `k` exceeds that many days.
pub proof fn lemma_retention_in_days(f: RecordingFile, now: i128, retention_days: u64, k: int)
    requires
        k >= 0,
        retention_days * 86400 <= u64::MAX,
        f.modified_nanos == now - k * 1_000_000_000,
    ensures
        is_stale(f, now, (retention_days * 86400) as u64) <==> k > retention_days * 24 * 60 * 60,
{
    lemma_stale_in_seconds(f, now, (retention_days * 86400) as u64, k);
}

/// Whether the file is stale.
pub fn check_stale(f: &RecordingFile, now: i128, retention_secs: u64) -> (r: bool)
    ensures
        r == is_stale(*f, now, retention_secs),
{
    if f.modified_nanos > now {
        return false;
    }
    let limit: i128 = retention_secs as i128 * 1_000_000_000;
    match now.checked_sub(f.modified_nanos) {
        Some(age) => age > limit,
        None => true,
    }
}

/// `files[i]` comes before `files[j]` oldest first: it was modified earlier,
/// or at the same time and listed earlier.
pub open spec fn older(files: Seq<RecordingFile>, i: usize, j: usize) -> bool {
    ||| files[i as int].modified_nanos < files[j as int].modified_nanos
    ||| (files[i as int].modified_nanos == files[j as int].modified_nanos && i < j)
}

/// Whether the indices are in oldest-first order.
pub open spec fn ordered_oldest_first(files: Seq<RecordingFile>, idx: Seq<usize>) -> bool {
    forall|a: int, b: int| 0 <= a < b < idx.len() ==> older(files, #[trigger] idx[a], #[trigger] idx[b])
}

/// The indices `0..n`.
pub open spec fn indices(n: nat) -> Seq<usize> {
    Seq::new(n, |k: int| k as usize)
}

/// Files taken oldest first: each index of `files` once, ordered by
/// modification time, and files with equal times in the order they were
/// listed.
pub open spec fn oldest_first(files: Seq<RecordingFile>, order: Seq<usize>) -> bool {
    &&& order.len() == files.len()
    &&& order.to_multiset() == indices(files.len()).to_multiset()
    &&& forall|k: int| 0 <= k < order.len() ==> #[trigger] order[k] < files.len()
    &&& ordered_oldest_first(files, order)
}

/// The indices of `files`, oldest first (a stable sort by modification time).
pub fn sort_oldest_first(files: &Vec<RecordingFile>) -> (order: Vec<usize>)
    ensures
        oldest_first(files@, order@),
{
    let mut order: Vec<usize> = Vec::new();
    let n = files.len();
    let mut i: usize = 0;
    assert(order@ =~= indices(0));
    while i < n
        invariant
            n == files@.len(),
            i <= n,
            order@.len() == i,
            forall|k: int| 0 <= k < order@.len() ==> #[trigger] order@[k] < i,
            ordered_oldest_first(files@, order@),
            order@.to_multiset() == indices(i as nat).to_multiset(),
        decreases n - i,
    {
        let m = files[i].modified_nanos;
        let mut j: usize = 0;
        while j < order.len() && files[order[j]].modified_nanos <= m
            invariant
                n == files@.len(),
                i < n,
                j <= order@.len(),
                forall|k: int| 0 <= k < order@.len() ==> #[trigger] order@[k] < i,
                m == files@[i as int].modified_nanos,
                forall|k: int| 0 <= k < j ==> files@[#[trigger] order@[k] as int].modified_nanos <= m,
            decreases order@.len() - j,
        {
            j = j + 1;
        }
        let ghost old_order = order@;
        proof {
            if j < old_order.len() {
                assert forall|k: int| j <= k < old_order.len() implies
                    files@[#[trigger] old_order[k] as int].modified_nanos > m by {
                    if k > j {
                        assert(files@[old_order[j as int] as int].modified_nanos
                            <= files@[old_order[k] as int].modified_nanos);
                    }
                }
            }
        }
        order.insert(j, i);
        assert(order@ =~= old_order.insert(j as int, i));
        proof {
            broadcast use vstd::seq_lib::group_to_multiset_ensures;
            assert(indices((i + 1) as nat) =~= indices(i as nat).push(i));
        }
        i = i + 1;
    }
    assert(indices(n as nat) =~= indices(i as nat));
    order
}

/// The bytes of the files at the given indices.
pub open spec fn bytes_of(files: Seq<RecordingFile>, idx: Seq<usize>) -> int
    decreases idx.len(),
{
    if idx.len() == 0 {
        0
    } else {
        files[idx[0] as int].size + bytes_of(files, idx.drop_first())
    }
}

/// Adding an index at the end adds its file's bytes.
pub proof fn lemma_bytes_of_push(files: Seq<RecordingFile>, idx: Seq<usize>, x: usize)
    ensures
        bytes_of(files, idx.push(x)) == bytes_of(files, idx) + files[x as int].size,
    decreases idx.len(),
{
    if idx.len() > 0 {
        assert(bytes_of(files, idx) == files[idx[0] as int].size + bytes_of(files, idx.drop_first()));
        assert(idx.push(x)[0] == idx[0]);
        assert(idx.push(x).drop_first() =~= idx.drop_first().push(x));
        lemma_bytes_of_push(files, idx.drop_first(), x);
    } else {
        assert(idx.push(x)[0] == x);
        assert(idx.push(x).drop_first() =~= Seq::<usize>::empty());
        assert(bytes_of(files, Seq::<usize>::empty()) == 0);
    }
}

/// The bytes of a list of files are never negative.
pub proof fn lemma_bytes_of_nonneg(files: Seq<RecordingFile>, idx: Seq<usize>)
    ensures
        bytes_of(files, idx) >= 0,
    decreases idx.len(),
{
    if idx.len() > 0 {
        lemma_bytes_of_nonneg(files, idx.drop_first());
    }
}

/// The bytes of a list of files.
pub open spec fn total_size(files: Seq<RecordingFile>) -> int
    decreases files.len(),
{
    if files.len() == 0 {
        0
    } else {
        files[0].size + total_size(files.drop_first())
    }
}

/// Adding a file's bytes to a running sum.
pub open spec fn add_size() -> spec_fn(RecordingFile, int) -> int {
    |f: RecordingFile, acc: int| f.size + acc
}

/// Adding the bytes of the file at an index to a running sum.
pub open spec fn add_size_at(files: Seq<RecordingFile>) -> spec_fn(usize, int) -> int {
    |k: usize, acc: int| files[k as int].size + acc
}

/// `total_size` as a fold.
proof fn lemma_total_size_fold(fs: Seq<RecordingFile>)
    ensures
        total_size(fs) == fs.fold_right_alt(add_size(), 0),
    decreases fs.len(),
{
    if fs.len() > 0 {
        assert(fs.subrange(1, fs.len() as int) =~= fs.drop_first());
        lemma_total_size_fold(fs.drop_first());
    }
}

/// `bytes_of` as a fold.
proof fn lemma_bytes_of_fold(files: Seq<RecordingFile>, idx: Seq<usize>)
    ensures
        bytes_of(files, idx) == idx.fold_right_alt(add_size_at(files), 0),
    decreases idx.len(),
{
    if idx.len() > 0 {
        assert(idx.subrange(1, idx.len() as int) =~= idx.drop_first());
        lemma_bytes_of_fold(files, idx.drop_first());
    }
}

/// The bytes of a list of files do not depend on their order.
pub proof fn lemma_total_size_permutation(a: Seq<RecordingFile>, b: Seq<RecordingFile>)
    requires
        a.to_multiset() == b.to_multiset(),
    ensures
        total_size(a) == total_size(b),
{
    let f = add_size();
    assert(vstd::seq_lib::commutative_foldr(f)) by {
        assert forall|x: RecordingFile, y: RecordingFile, v: int| #[trigger] f(x, f(y, v)) == f(y, f(x, v)) by {}
    }
    vstd::seq_lib::lemma_fold_right_permutation(a, b, f, 0);
    a.lemma_fold_right_alt(f, 0);
    b.lemma_fold_right_alt(f, 0);
    lemma_total_size_fold(a);
    lemma_total_size_fold(b);
}

/// The bytes of the files at some indices do not depend on the indices' order.
pub proof fn lemma_bytes_of_permutation(files: Seq<RecordingFile>, a: Seq<usize>, b: Seq<usize>)
    requires
        a.to_multiset() == b.to_multiset(),
    ensures
        bytes_of(files, a) == bytes_of(files, b),
{
    let f = add_size_at(files);
    assert(vstd::seq_lib::commutative_foldr(f)) by {
        assert forall|x: usize, y: usize, v: int| #[trigger] f(x, f(y, v)) == f(y, f(x, v)) by {}
    }
    vstd::seq_lib::lemma_fold_right_permutation(a, b, f, 0);
    a.lemma_fold_right_alt(f, 0);
    b.lemma_fold_right_alt(f, 0);
    lemma_bytes_of_fold(files, a);
    lemma_bytes_of_fold(files, b);
}

/// The bytes of the files at some indices are the bytes of those files.
pub proof fn lemma_bytes_of_files(files: Seq<RecordingFile>, idx: Seq<usize>)
    ensures
        bytes_of(files, idx) == total_size(idx.map_values(|k: usize| files[k as int])),
    decreases idx.len(),
{
    if idx.len() > 0 {
        assert(idx.map_values(|k: usize| files[k as int]).drop_first()
            =~= idx.drop_first().map_values(|k: usize| files[k as int]));
        lemma_bytes_of_files(files, idx.drop_first());
    }
}

/// Oldest first, the files hold all their bytes.
pub proof fn lemma_oldest_first_bytes(files: Seq<RecordingFile>, order: Seq<usize>)
    requires
        oldest_first(files, order),
        files.len() <= usize::MAX,
    ensures
        bytes_of(files, order) == total_size(files),
{
    lemma_bytes_of_permutation(files, order, indices(files.len()));
    lemma_bytes_of_files(files, indices(files.len()));
    let mapped = indices(files.len()).map_values(|k: usize| files[k as int]);
    assert forall|k: int| 0 <= k < files.len() implies mapped[k] == files[k] by {
        assert(indices(files.len())[k] == k as usize);
    }
    assert(mapped =~= files);
}

impl Cleaner {
    /// A cleaner for the recordings under `config.recording_path`.
    pub fn new(config: Config, retention_days: u64, max_size_mb: u64) -> (c: Self)
        ensures
            c.config == config,
            c.retention_days == retention_days,
            c.max_size_mb == max_size_mb,
    {
        Cleaner { config, retention_days, max_size_mb }
    }

    /// The size limit in bytes and the retention time in seconds fit a `u64`.
    pub open spec fn limits_fit(&self) -> bool {
        &&& self.max_size_mb * 1048576 <= u64::MAX
        &&& self.retention_days * 86400 <= u64::MAX
    }

    /// Whether the limits fit their integers.
    pub fn check_limits(&self) -> (r: bool)
        ensures
            r == self.limits_fit(),
    {
        self.max_size_mb.checked_mul(1048576).is_some() && self.retention_days.checked_mul(86400).is_some()
    }

    /// Starts a cleanup of `files` (the `mp4` files of the recording
    /// directory) at time `now`, in nanoseconds since the UNIX epoch.
    pub fn start_cleanup(&self, files: Vec<RecordingFile>, now: i128) -> (run: CleanupRun)
        requires
            self.limits_fit(),
        ensures
            run.wf(),
            run.files == files,
            run.now == now,
            run.max_bytes == self.max_size_mb * 1048576,
            run.retention_secs == self.retention_days * 86400,
            oldest_first(files@, run.order@),
            run.phase == CleanupPhase::Retention,
            run.cursor == 0,
            run.survivors@ == Seq::<usize>::empty(),
            !run.awaiting,
            run.all_deleted@,
    {
        let max_bytes = self.max_size_mb * (1024 * 1024);
        let retention_secs = self.retention_days * (24 * 60 * 60);
        let order = sort_oldest_first(&files);
        CleanupRun {
            files,
            order,
            now,
            retention_secs,
            max_bytes,
            phase: CleanupPhase::Retention,
            cursor: 0,
            survivors: Vec::new(),
            total: 0,
            awaiting: false,
            failed_bytes: Ghost(0),
            all_deleted: Ghost(true),
        }
    }
}

/// Where a cleanup stands.
#[derive(PartialEq, Eq, Structural, Clone, Copy, Debug)]
pub enum CleanupPhase {
    /// Deleting stale recordings, oldest first.
    Retention,
    /// Deleting the oldest remaining recordings while they exceed the limit.
    Space,
    /// Nothing more to delete.
    Done,
}

/// What the cleanup asks for next.
#[derive(PartialEq, Eq, Structural, Clone, Copy, Debug)]
pub enum CleanupAction {
    /// Delete `files[index]` and report whether that succeeded.
    Delete { index: usize },
    /// The remaining recordings' total size does not fit a `u64`.
    TotalOverflow,
    /// The cleanup is over.
    Finished,
}

/// A cleanup in progress: it names one file at a time to delete and learns
/// whether the deletion succeeded.
pub struct CleanupRun {
    pub files: Vec<RecordingFile>,
    /// Indices of `files`, oldest first.
    pub order: Vec<usize>,
    pub now: i128,
    pub retention_secs: u64,
    pub max_bytes: u64,
    pub phase: CleanupPhase,
    /// In `Retention`, a position in `order`; in `Space`, in `survivors`.
    pub cursor: usize,
    /// Files that were not stale, or whose deletion failed, oldest first.
    pub survivors: Vec<usize>,
    /// In `Space`, the bytes of the surviving files not deleted yet.
    pub total: u64,
    /// A deletion was asked for and its outcome is not reported yet.
    pub awaiting: bool,
    /// In `Space`, the bytes of survivors before the cursor whose deletion failed.
    pub failed_bytes: Ghost<int>,
    /// Every deletion reported so far succeeded.
    pub all_deleted: Ghost<bool>,
}

/// The first position from `c` in `order` that holds a stale file, or the
/// length of `order` where none does.
pub open spec fn first_stale(files: Seq<RecordingFile>, order: Seq<usize>, now: i128, retention_secs: u64, c: int) -> int
    decreases order.len() - c,
{
    if c >= order.len() || c < 0 {
        order.len() as int
    } else if is_stale(files[order[c] as int], now, retention_secs) {
        c
    } else {
        first_stale(files, order, now, retention_secs, c + 1)
    }
}

/// Retention deletes exactly the stale files: the files it passes over on the
/// way to the next deletion are not stale, and the one it names is.
pub proof fn lemma_retention_targets_stale(files: Seq<RecordingFile>, order: Seq<usize>, now: i128, retention_secs: u64, c: int)
    requires
        0 <= c <= order.len(),
    ensures
        c <= first_stale(files, order, now, retention_secs, c) <= order.len(),
        forall|k: int| c <= k < first_stale(files, order, now, retention_secs, c) ==>
            !is_stale(files[#[trigger] order[k] as int], now, retention_secs),
        first_stale(files, order, now, retention_secs, c) < order.len() ==>
            is_stale(files[order[first_stale(files, order, now, retention_secs, c)] as int], now, retention_secs),
    decreases order.len() - c,
{
    if c < order.len() && !is_stale(files[order[c] as int], now, retention_secs) {
        lemma_retention_targets_stale(files, order, now, retention_secs, c + 1);
    }
}

/// Space is freed oldest first: every survivor that the space phase has
/// passed (deleted, or tried to) is older than every survivor after it.
pub proof fn lemma_space_deletes_oldest_first(run: CleanupRun, a: int, b: int)
    requires
        run.wf(),
        run.phase == CleanupPhase::Space,
        0 <= a < run.cursor <= b < run.survivors@.len(),
    ensures
        older(run.files@, run.survivors@[a], run.survivors@[b]),
{
}

impl CleanupRun {
    /// The run's invariant.
    pub open spec fn wf(&self) -> bool {
        &&& oldest_first(self.files@, self.order@)
        &&& forall|k: int| 0 <= k < self.survivors@.len() ==> #[trigger] self.survivors@[k] < self.files@.len()
        &&& ordered_oldest_first(self.files@, self.survivors@)
        &&& self.all_deleted@ ==> forall|k: int| 0 <= k < self.survivors@.len()
            ==> !is_stale(self.files@[#[trigger] self.survivors@[k] as int], self.now, self.retention_secs)
        &&& self.all_deleted@ && self.phase == CleanupPhase::Space ==> self.failed_bytes@ == 0
        &&& match self.phase {
            CleanupPhase::Retention => {
                &&& forall|k: int, j: int| 0 <= k < self.survivors@.len() && self.cursor <= j < self.order@.len()
                    ==> older(self.files@, #[trigger] self.survivors@[k], #[trigger] self.order@[j])
                &&& self.cursor <= self.order@.len()
                &&& self.awaiting ==> self.cursor < self.order@.len()
            },
            CleanupPhase::Space => {
                &&& self.cursor <= self.survivors@.len()
                &&& self.awaiting ==> self.cursor < self.survivors@.len()
                &&& self.failed_bytes@ >= 0
                &&& self.total == self.failed_bytes@ + bytes_of(self.files@,
                    self.survivors@.skip(self.cursor as int))
            },
            CleanupPhase::Done => !self.awaiting,
        }
    }

    /// In `Space`, the survivors not deleted for space: the files that the
    /// cleanup leaves where every deletion succeeds.
    pub open spec fn files_left(&self) -> Seq<usize> {
        self.survivors@.skip(self.cursor as int)
    }

    /// The first position from `c` in `order` that holds a stale file.
    pub open spec fn next_stale(&self, c: int) -> int {
        first_stale(self.files@, self.order@, self.now, self.retention_secs, c)
    }

    /// The next action, and the run moved on to it. In `Retention`, files that
    /// are not stale join the survivors; the first stale one is to be deleted.
    /// When none is left, the survivors' total size is taken and `Space`
    /// begins. In `Space`, while the survivors not deleted exceed the limit,
    /// the next one is to be deleted.
    pub fn next_action(&mut self) -> (a: CleanupAction)
        requires
            old(self).wf(),
            !old(self).awaiting,
        ensures
            final(self).wf(),
            final(self).files == old(self).files,
            final(self).order == old(self).order,
            final(self).now == old(self).now,
            final(self).retention_secs == old(self).retention_secs,
            final(self).max_bytes == old(self).max_bytes,
            final(self).all_deleted == old(self).all_deleted,
            old(self).phase == CleanupPhase::Retention ==> {
                let e = old(self).next_stale(old(self).cursor as int);
                &&& final(self).survivors@ == old(self).survivors@
                    + old(self).order@.subrange(old(self).cursor as int, e)
                &&& e < old(self).order@.len() ==> {
                    &&& a == CleanupAction::Delete { index: old(self).order@[e] }
                    &&& final(self).phase == CleanupPhase::Retention
                    &&& final(self).cursor == e
                    &&& final(self).awaiting
                }
                &&& e == old(self).order@.len() ==> {
                    let sum = bytes_of(old(self).files@, final(self).survivors@);
                    &&& sum > u64::MAX ==> a == CleanupAction::TotalOverflow
                        && final(self).phase == CleanupPhase::Done
                    &&& sum <= u64::MAX ==> {
                        &&& final(self).phase == CleanupPhase::Space
                        &&& final(self).total == sum
                        &&& final(self).cursor == 0
                        &&& (if sum > old(self).max_bytes && final(self).survivors@.len() > 0 {
                            &&& a == CleanupAction::Delete { index: final(self).survivors@[0] }
                            &&& final(self).awaiting
                        } else {
                            a == CleanupAction::Finished && !final(self).awaiting
                        })
                    }
                }
            },
            old(self).phase == CleanupPhase::Space ==> {
                &&& final(self).survivors == old(self).survivors
                &&& final(self).total == old(self).total
                &&& final(self).cursor == old(self).cursor
                &&& final(self).phase == CleanupPhase::Space
                &&& if old(self).total > old(self).max_bytes && old(self).cursor < old(self).survivors@.len() {
                    &&& a == CleanupAction::Delete { index: old(self).survivors@[old(self).cursor as int] }
                    &&& final(self).awaiting
                } else {
                    a == CleanupAction::Finished && !final(self).awaiting
                }
            },
            old(self).phase == CleanupPhase::Done ==> a == CleanupAction::Finished
                && final(self).phase == CleanupPhase::Done,
    {
        match self.phase {
            CleanupPhase::Retention => {
                let ghost start = self.cursor as int;
                let ghost old_survivors = self.survivors@;
                proof {
                    lemma_retention_targets_stale(self.files@, self.order@, self.now, self.retention_secs, start);
                }
                while self.cursor < self.order.len()
                    && !check_stale(&self.files[self.order[self.cursor]], self.now, self.retention_secs)
                    invariant
                        self.files == old(self).files,
                        self.order == old(self).order,
                        self.now == old(self).now,
                        self.retention_secs == old(self).retention_secs,
                        self.max_bytes == old(self).max_bytes,
                        self.all_deleted == old(self).all_deleted,
                        self.wf(),
                        self.phase == CleanupPhase::Retention,
                        old(self).phase == CleanupPhase::Retention,
                        !self.awaiting,
                        0 <= start <= self.cursor,
                        first_stale(self.files@, self.order@, self.now, self.retention_secs, start)
                            == first_stale(self.files@, self.order@, self.now, self.retention_secs, self.cursor as int),
                        self.survivors@ == old_survivors + self.order@.subrange(start, self.cursor as int),
                    decreases self.order@.len() - self.cursor,
                {
                    let idx = self.order[self.cursor];
                    self.survivors.push(idx);
                    assert(idx == self.order@[self.cursor as int]);
                    assert(self.order@.subrange(start, self.cursor + 1)
                        =~= self.order@.subrange(start, self.cursor as int).push(idx));
                    self.cursor = self.cursor + 1;
                }
                if self.cursor < self.order.len() {
                    self.awaiting = true;
                    return CleanupAction::Delete { index: self.order[self.cursor] };
                }
                let mut sum: u64 = 0;
                let mut k: usize = 0;
                assert(self.survivors@.take(0) =~= Seq::<usize>::empty());
                while k < self.survivors.len()
                    invariant
                        self.files == old(self).files,
                        self.order == old(self).order,
                        self.now == old(self).now,
                        self.retention_secs == old(self).retention_secs,
                        self.max_bytes == old(self).max_bytes,
                        self.all_deleted == old(self).all_deleted,
                        self.wf(),
                        self.phase == CleanupPhase::Retention,
                        old(self).phase == CleanupPhase::Retention,
                        !self.awaiting,
                        self.survivors@ == old(self).survivors@
                            + old(self).order@.subrange(old(self).cursor as int, old(self).next_stale(old(self).cursor as int)),
                        self.cursor == self.order@.len(),
                        old(self).next_stale(old(self).cursor as int) == self.order@.len(),
                        k <= self.survivors@.len(),
                        sum == bytes_of(self.files@, self.survivors@.take(k as int)),
                    decreases self.survivors@.len() - k,
                {
                    let size = self.files[self.survivors[k]].size;
                    proof {
                        assert(self.survivors@.take(k + 1) =~= self.survivors@.take(k as int).push(self.survivors@[k as int]));
                        lemma_bytes_of_push(self.files@, self.survivors@.take(k as int), self.survivors@[k as int]);
                    }
                    if sum > u64::MAX - size {
                        proof {
                            lemma_bytes_of_tail_bound(self.files@, self.survivors@, k as int + 1);
                        }
                        self.phase = CleanupPhase::Done;
                        return CleanupAction::TotalOverflow;
                    }
                    sum = sum + size;
                    k = k + 1;
                }
                assert(self.survivors@.take(k as int) =~= self.survivors@);
                assert(self.survivors@.skip(0) =~= self.survivors@);
                self.phase = CleanupPhase::Space;
                self.cursor = 0;
                self.total = sum;
                self.failed_bytes = Ghost(0);
                if self.total > self.max_bytes && self.survivors.len() > 0 {
                    self.awaiting = true;
                    CleanupAction::Delete { index: self.survivors[0] }
                } else {
                    CleanupAction::Finished
                }
            },
            CleanupPhase::Space => {
                if self.total > self.max_bytes && self.cursor < self.survivors.len() {
                    self.awaiting = true;
                    CleanupAction::Delete { index: self.survivors[self.cursor] }
                } else {
                    CleanupAction::Finished
                }
            },
            CleanupPhase::Done => CleanupAction::Finished,
        }
    }

    /// Reports whether the deletion asked for succeeded. A stale file whose
    /// deletion failed stays among the survivors; a survivor deleted for
    /// space no longer counts toward the total.
    pub fn report_deletion(&mut self, deleted: bool)
        requires
            old(self).wf(),
            old(self).awaiting,
        ensures
            final(self).wf(),
            !final(self).awaiting,
            final(self).files == old(self).files,
            final(self).order == old(self).order,
            final(self).now == old(self).now,
            final(self).retention_secs == old(self).retention_secs,
            final(self).max_bytes == old(self).max_bytes,
            final(self).phase == old(self).phase,
            final(self).cursor == old(self).cursor + 1,
            final(self).all_deleted@ == (old(self).all_deleted@ && deleted),
            old(self).phase == CleanupPhase::Retention ==> {
                &&& deleted ==> final(self).survivors@ == old(self).survivors@
                &&& !deleted ==> final(self).survivors@ == old(self).survivors@.push(
                    old(self).order@[old(self).cursor as int])
            },
            old(self).phase == CleanupPhase::Space ==> {
                &&& final(self).survivors == old(self).survivors
                &&& deleted ==> final(self).total == old(self).total
                    - old(self).files@[old(self).survivors@[old(self).cursor as int] as int].size
                &&& !deleted ==> final(self).total == old(self).total
            },
    {
        if !deleted {
            self.all_deleted = Ghost(false);
        }
        match self.phase {
            CleanupPhase::Retention => {
                assert(self.cursor < self.order.len());
                if !deleted {
                    let idx = self.order[self.cursor];
                    self.survivors.push(idx);
                }
                self.cursor = self.cursor + 1;
                self.awaiting = false;
            },
            CleanupPhase::Space => {
                assert(self.cursor < self.survivors.len());
                let ghost rest = self.survivors@.skip(self.cursor as int);
                let size = self.files[self.survivors[self.cursor]].size;
                proof {
                    assert(rest.drop_first() =~= self.survivors@.skip(self.cursor + 1));
                    lemma_bytes_of_nonneg(self.files@, rest.drop_first());
                }
                if deleted {
                    self.total = self.total - size;
                } else {
                    self.failed_bytes = Ghost(self.failed_bytes@ + size);
                }
                self.cursor = self.cursor + 1;
                self.awaiting = false;
            },
            CleanupPhase::Done => {
                self.awaiting = false;
            },
        }
    }
}

/// A cleanup that finished with every deletion successful leaves nothing to
/// do: no file left is stale, and the files left fit the size limit.
pub proof fn lemma_finished_cleanup_leaves_nothing(run: CleanupRun)
    requires
        run.wf(),
        run.all_deleted@,
        run.phase == CleanupPhase::Space,
        !(run.total > run.max_bytes && run.cursor < run.survivors@.len()),
    ensures
        forall|k: int| 0 <= k < run.files_left().len()
            ==> !is_stale(run.files@[#[trigger] run.files_left()[k] as int], run.now, run.retention_secs),
        bytes_of(run.files@, run.files_left()) <= run.max_bytes,
{
    let left = run.files_left();
    assert forall|k: int| 0 <= k < left.len()
        implies !is_stale(run.files@[#[trigger] left[k] as int], run.now, run.retention_secs) by {
        assert(left[k] == run.survivors@[run.cursor + k]);
    }
    if run.cursor == run.survivors@.len() {
        assert(left =~= Seq::<usize>::empty());
    }
}

/// A cleanup of files of which none is stale and which fit the size limit
/// deletes nothing: retention finds no stale file, so every file survives,
/// and the survivors' bytes do not exceed the limit, so the next action is
/// `Finished`.
pub proof fn lemma_nothing_to_clean(run: CleanupRun)
    requires
        run.wf(),
        run.phase == CleanupPhase::Retention,
        run.cursor == 0,
        run.survivors@.len() == 0,
        forall|i: int| 0 <= i < run.files@.len() ==> !is_stale(#[trigger] run.files@[i], run.now, run.retention_secs),
        total_size(run.files@) <= run.max_bytes,
    ensures
        run.next_stale(0) == run.order@.len(),
        run.survivors@ + run.order@.subrange(0, run.order@.len() as int) == run.order@,
        bytes_of(run.files@, run.order@) <= run.max_bytes,
{
    lemma_retention_targets_stale(run.files@, run.order@, run.now, run.retention_secs, 0);
    let e = run.next_stale(0);
    if e < run.order@.len() {
        assert(run.order@[e] < run.files@.len());
        assert(!is_stale(run.files@[run.order@[e] as int], run.now, run.retention_secs));
    }
    assert(run.files.len() == run.files@.len());
    lemma_oldest_first_bytes(run.files@, run.order@);
    assert(run.survivors@ + run.order@.subrange(0, run.order@.len() as int) =~= run.order@);
}

/// Cleaning up twice deletes nothing the second time: after a cleanup that
/// finished with every deletion successful, a cleanup of the files it left
/// (in any order), with the same limits, at a time when none of them has
/// become stale, finds no stale file and nothing to delete for space.
pub proof fn lemma_cleanup_is_idempotent(first: CleanupRun, second: CleanupRun)
    requires
        first.wf(),
        first.all_deleted@,
        first.phase == CleanupPhase::Space,
        !(first.total > first.max_bytes && first.cursor < first.survivors@.len()),
        second.wf(),
        second.phase == CleanupPhase::Retention,
        second.cursor == 0,
        second.survivors@.len() == 0,
        second.retention_secs == first.retention_secs,
        second.max_bytes == first.max_bytes,
        second.files@.to_multiset()
            == first.files_left().map_values(|k: usize| first.files@[k as int]).to_multiset(),
        forall|f: RecordingFile| #[trigger] second.files@.contains(f) && is_stale(f, second.now, second.retention_secs)
            ==> is_stale(f, first.now, first.retention_secs),
    ensures
        second.next_stale(0) == second.order@.len(),
        second.survivors@ + second.order@.subrange(0, second.order@.len() as int) == second.order@,
        bytes_of(second.files@, second.order@) <= second.max_bytes,
{
    broadcast use vstd::seq_lib::group_to_multiset_ensures;
    lemma_finished_cleanup_leaves_nothing(first);
    let left = first.files_left();
    let kept = left.map_values(|k: usize| first.files@[k as int]);
    assert forall|i: int| 0 <= i < second.files@.len()
        implies !is_stale(#[trigger] second.files@[i], second.now, second.retention_secs) by {
        let f = second.files@[i];
        assert(second.files@.contains(f));
        assert(second.files@.to_multiset().count(f) > 0);
        assert(kept.contains(f));
        let k = choose|k: int| 0 <= k < kept.len() && kept[k] == f;
        assert(f == first.files@[left[k] as int]);
    }
    lemma_total_size_permutation(second.files@, kept);
    lemma_bytes_of_files(first.files@, left);
    lemma_nothing_to_clean(second);
}

/// A prefix's bytes are at most the whole list's.
pub proof fn lemma_bytes_of_tail_bound(files: Seq<RecordingFile>, idx: Seq<usize>, k: int)
    requires
        0 <= k <= idx.len(),
    ensures
        bytes_of(files, idx.take(k)) <= bytes_of(files, idx),
    decreases idx.len(),
{
    if k > 0 {
        assert(idx.take(k).drop_first() =~= idx.drop_first().take(k - 1));
        lemma_bytes_of_tail_bound(files, idx.drop_first(), k - 1);
    } else {
        lemma_bytes_of_nonneg(files, idx);
    }
}

} // verus!
