//! The processing queue of the AI page: transcriptions waiting, running,
//! finished or failed, at most one entry per video.
use vstd::prelude::*;

verus! {

/// Two paths name the same file path, compared by components as `Path`'s
/// `==` does.
pub uninterp spec fn path_eq(a: Seq<char>, b: Seq<char>) -> bool;

/// `<std::path::Path as PartialEq>::eq` on the two paths. Its contract claims
/// that the result is named `path_eq` and, as `Path` implements `Eq`, that the
/// comparison is symmetric and holds of equal texts.
#[verifier::external_body]
fn same_path(a: &str, b: &str) -> (r: bool)
    ensures
        r == path_eq(a@, b@),
        r == path_eq(b@, a@),
        a@ == b@ ==> r,
{
    std::path::Path::new(a) == std::path::Path::new(b)
}

/// Two entries are for the same video: their paths are equal texts, or
/// paths that `Path`'s `==` holds equal.
pub open spec fn same_video(a: Seq<char>, b: Seq<char>) -> bool {
    a == b || path_eq(a, b)
}

/// The state of one transcription.
#[derive(Clone, Debug)]
pub enum QueueStatus {
    Queued,
    Processing,
    Done,
    Failed(String),
}

pub enum StatusView {
    Queued,
    Processing,
    Done,
    Failed(Seq<char>),
}

pub open spec fn status_view(s: QueueStatus) -> StatusView {
    match s {
        QueueStatus::Queued => StatusView::Queued,
        QueueStatus::Processing => StatusView::Processing,
        QueueStatus::Done => StatusView::Done,
        QueueStatus::Failed(m) => StatusView::Failed(m@),
    }
}

/// A queued transcription: the video, its state, and its progress as a
/// fraction in 0.0..=1.0 (an IEEE-754 double kept as its bit pattern).
#[derive(Clone, Debug)]
pub struct QueueItem {
    pub video_path: String,
    pub status: QueueStatus,
    pub progress_bits: u64,
}

pub struct ItemView {
    pub path: Seq<char>,
    pub status: StatusView,
    pub progress_bits: u64,
}

impl View for QueueItem {
    type V = ItemView;

    open spec fn view(&self) -> ItemView {
        ItemView { path: self.video_path@, status: status_view(self.status), progress_bits: self.progress_bits }
    }
}

/// The bit pattern of the double 0.0.
pub open spec fn progress_none() -> u64 {
    0
}

/// The bit pattern of the double 1.0.
pub open spec fn progress_full() -> u64 {
    0x3FF0_0000_0000_0000
}

/// The transcriptions shown on the AI page, in the order they first appeared.
pub struct ProcessingQueue {
    items: Vec<QueueItem>,
}

/// Index of the first entry for `path`, or -1.
pub open spec fn find(q: Seq<ItemView>, path: Seq<char>) -> int
    decreases q.len(),
{
    if q.len() == 0 {
        -1
    } else {
        let i = find(q.drop_last(), path);
        if i >= 0 {
            i
        } else if same_video(q.last().path, path) {
            q.len() - 1
        } else {
            -1
        }
    }
}

/// No two entries are for the same video.
pub open spec fn unique_paths(q: Seq<ItemView>) -> bool {
    forall|i: int, j: int| 0 <= i < j < q.len() ==> !same_video(#[trigger] q[i].path, #[trigger] q[j].path)
}

/// The entry for `path` set to `status` and `progress`, or a new one at the end.
pub open spec fn upsert(q: Seq<ItemView>, path: Seq<char>, status: StatusView, progress: u64) -> Seq<ItemView> {
    let i = find(q, path);
    if i >= 0 {
        q.update(i, ItemView { path: q[i].path, status, progress_bits: progress })
    } else {
        q.push(ItemView { path, status, progress_bits: progress })
    }
}

/// The queue after `enqueue(path)`: the video waits again with no progress.
pub open spec fn enqueue_spec(q: Seq<ItemView>, path: Seq<char>) -> Seq<ItemView> {
    upsert(q, path, StatusView::Queued, progress_none())
}

/// The queue after `mark_processing(path, progress)`.
pub open spec fn processing_spec(q: Seq<ItemView>, path: Seq<char>, progress: u64) -> Seq<ItemView> {
    upsert(q, path, StatusView::Processing, progress)
}

/// The queue after `mark_done(path)`: a known video is done with full
/// progress; an unknown one is ignored.
pub open spec fn done_spec(q: Seq<ItemView>, path: Seq<char>) -> Seq<ItemView> {
    let i = find(q, path);
    if i >= 0 {
        q.update(i, ItemView { path: q[i].path, status: StatusView::Done, progress_bits: progress_full() })
    } else {
        q
    }
}

/// The queue after `mark_failed(path, message)`: a known video fails with
/// the message, keeping its progress; an unknown one is ignored.
pub open spec fn failed_spec(q: Seq<ItemView>, path: Seq<char>, message: Seq<char>) -> Seq<ItemView> {
    let i = find(q, path);
    if i >= 0 {
        q.update(i, ItemView { path: q[i].path, status: StatusView::Failed(message), progress_bits: q[i].progress_bits })
    } else {
        q
    }
}

pub proof fn lemma_find(q: Seq<ItemView>, path: Seq<char>)
    ensures
        -1 <= find(q, path) < q.len(),
        find(q, path) >= 0 ==> same_video(q[find(q, path)].path, path),
        forall|j: int| 0 <= j < q.len() && (find(q, path) < 0 || j < find(q, path)) ==> !same_video(#[trigger] q[j].path, path),
    decreases q.len(),
{
    if q.len() > 0 {
        lemma_find(q.drop_last(), path);
        assert forall|j: int| 0 <= j < q.len() - 1 implies #[trigger] q[j] == q.drop_last()[j] by {}
    }
}

impl View for ProcessingQueue {
    type V = Seq<ItemView>;

    closed spec fn view(&self) -> Seq<ItemView> {
        self.items@.map_values(|it: QueueItem| it@)
    }
}

impl ProcessingQueue {
    /// Well-formed: at most one entry per video.
    pub open spec fn wf(&self) -> bool {
        unique_paths(self@)
    }

    pub fn new() -> (q: Self)
        ensures
            q@ == Seq::<ItemView>::empty(),
            q.wf(),
    {
        let q = ProcessingQueue { items: Vec::new() };
        assert(q@ == Seq::<ItemView>::empty());
        q
    }

    /// The entries, in order.
    pub fn items(&self) -> (r: &Vec<QueueItem>)
        ensures
            r@.map_values(|it: QueueItem| it@) == self@,
    {
        &self.items
    }

    fn position(&self, path: &str) -> (r: Option<usize>)
        ensures
            match r {
                Some(i) => i as int == find(self@, path@) && i < self@.len(),
                None => find(self@, path@) < 0,
            },
    {
        let mut i: usize = 0;
        proof {
            lemma_find(self@, path@);
        }
        while i < self.items.len()
            invariant
                i <= self.items@.len(),
                self@ == self.items@.map_values(|it: QueueItem| it@),
                -1 <= find(self@, path@) < self@.len(),
                forall|j: int| 0 <= j < self@.len() && (find(self@, path@) < 0 || j < find(self@, path@)) ==> !same_video(#[trigger] self@[j].path, path@),
                find(self@, path@) >= 0 ==> same_video(self@[find(self@, path@)].path, path@),
                forall|j: int| 0 <= j < i ==> !same_video(#[trigger] self@[j].path, path@),
            decreases self.items@.len() - i,
        {
            if same_path(self.items[i].video_path.as_str(), path) {
                assert(self@[i as int].path == self.items@[i as int].video_path@);
                return Some(i);
            }
            i = i + 1;
        }
        None
    }

    fn set_entry(&mut self, i: usize, status: QueueStatus, progress_bits: u64)
        requires
            i < old(self)@.len(),
        ensures
            final(self)@ == old(self)@.update(
                i as int,
                ItemView { path: old(self)@[i as int].path, status: status_view(status), progress_bits },
            ),
    {
        let path = self.items[i].video_path.clone();
        let ghost v = status;
        let ghost before = self.items@;
        self.items.set(i, QueueItem { video_path: path, status, progress_bits });
        assert(self.items@.map_values(|it: QueueItem| it@) == before.map_values(|it: QueueItem| it@).update(
            i as int,
            ItemView { path: before[i as int].video_path@, status: status_view(v), progress_bits },
        ));
    }

    fn append_entry(&mut self, path: &str, status: QueueStatus, progress_bits: u64)
        ensures
            final(self)@ == old(self)@.push(ItemView { path: path@, status: status_view(status), progress_bits }),
    {
        let ghost v = status;
        let ghost before = self.items@;
        self.items.push(QueueItem { video_path: path.to_owned(), status, progress_bits });
        assert(self.items@.map_values(|it: QueueItem| it@) == before.map_values(|it: QueueItem| it@).push(
            ItemView { path: path@, status: status_view(v), progress_bits },
        ));
    }

    /// Queues a transcription of `path`; a video already listed is queued again
    /// in its place rather than listed twice.
    pub fn enqueue(&mut self, path: &str)
        requires
            old(self).wf(),
        ensures
            final(self).wf(),
            final(self)@ == enqueue_spec(old(self)@, path@),
    {
        proof {
            lemma_upsert_unique(self@, path@, StatusView::Queued, progress_none());
        }
        match self.position(path) {
            Some(i) => self.set_entry(i, QueueStatus::Queued, 0),
            None => self.append_entry(path, QueueStatus::Queued, 0),
        }
    }

    /// Marks `path` as being transcribed, with `progress_bits` the bit pattern
    /// of the fraction done (already clamped to 0.0..=1.0); an unknown video is added.
    pub fn mark_processing(&mut self, path: &str, progress_bits: u64)
        requires
            old(self).wf(),
        ensures
            final(self).wf(),
            final(self)@ == processing_spec(old(self)@, path@, progress_bits),
    {
        proof {
            lemma_upsert_unique(self@, path@, StatusView::Processing, progress_bits);
        }
        match self.position(path) {
            Some(i) => self.set_entry(i, QueueStatus::Processing, progress_bits),
            None => self.append_entry(path, QueueStatus::Processing, progress_bits),
        }
    }

    /// Marks `path` as transcribed.
    pub fn mark_done(&mut self, path: &str)
        requires
            old(self).wf(),
        ensures
            final(self).wf(),
            final(self)@ == done_spec(old(self)@, path@),
    {
        match self.position(path) {
            Some(i) => self.set_entry(i, QueueStatus::Done, 0x3FF0_0000_0000_0000),
            None => {},
        }
        assert(unique_paths(self@)) by {
            assert forall|a: int, b: int| 0 <= a < b < self@.len() implies !same_video(
                #[trigger] self@[a].path,
                #[trigger] self@[b].path,
            ) by {
                assert(self@[a].path == old(self)@[a].path);
                assert(self@[b].path == old(self)@[b].path);
            }
        }
    }

    /// Marks the transcription of `path` as failed with `message`.
    pub fn mark_failed(&mut self, path: &str, message: String)
        requires
            old(self).wf(),
        ensures
            final(self).wf(),
            final(self)@ == failed_spec(old(self)@, path@, message@),
    {
        match self.position(path) {
            Some(i) => {
                let progress = self.items[i].progress_bits;
                self.set_entry(i, QueueStatus::Failed(message), progress);
            },
            None => {},
        }
        assert(unique_paths(self@)) by {
            assert forall|a: int, b: int| 0 <= a < b < self@.len() implies !same_video(
                #[trigger] self@[a].path,
                #[trigger] self@[b].path,
            ) by {
                assert(self@[a].path == old(self)@[a].path);
                assert(self@[b].path == old(self)@[b].path);
            }
        }
    }
}

/// Queueing a video twice lists it once: the second `enqueue` of the same
/// path finds the entry the first one left and changes nothing more.
pub proof fn lemma_enqueue_idempotent(q: Seq<ItemView>, path: Seq<char>)
    requires
        unique_paths(q),
    ensures
        enqueue_spec(enqueue_spec(q, path), path) == enqueue_spec(q, path),
        enqueue_spec(q, path).len() == q.len() + (if find(q, path) < 0 {
            1int
        } else {
            0int
        }),
{
    lemma_find(q, path);
    let q1 = enqueue_spec(q, path);
    lemma_find(q1, path);
    let i = find(q, path);
    if i >= 0 {
        assert forall|j: int| 0 <= j < i implies !same_video(#[trigger] q1[j].path, path) by {
            assert(q1[j] == q[j]);
        }
        assert(q1[i].path == q[i].path);
        assert(find(q1, path) == i);
    } else {
        assert forall|j: int| 0 <= j < q.len() implies !same_video(#[trigger] q1[j].path, path) by {
            assert(q1[j] == q[j]);
        }
        assert(same_video(q1[q.len() as int].path, path));
        assert(find(q1, path) == q.len());
    }
}

/// After `enqueue(path)` the video's entry waits again with no progress,
/// whatever state it was in (queued, running, done or failed), and every
/// other entry is as it was; a video not yet listed is added at the end.
pub proof fn lemma_enqueue_requeues(q: Seq<ItemView>, path: Seq<char>)
    ensures
        ({
            let r = enqueue_spec(q, path);
            let i = find(q, path);
            &&& i >= 0 ==> {
                &&& r.len() == q.len()
                &&& r[i].path == q[i].path
                &&& r[i].status is Queued
                &&& r[i].progress_bits == 0
                &&& forall|j: int| 0 <= j < q.len() && j != i ==> #[trigger] r[j] == q[j]
            }
            &&& i < 0 ==> {
                &&& r.len() == q.len() + 1
                &&& r[q.len() as int] == ItemView { path, status: StatusView::Queued, progress_bits: 0 }
                &&& forall|j: int| 0 <= j < q.len() ==> #[trigger] r[j] == q[j]
            }
        }),
{
    lemma_find(q, path);
}

/// Marking a video: `mark_processing` sets its entry running with the given
/// progress (adding it at the end when unknown); `mark_done` sets a known
/// entry done with full progress (1.0); `mark_failed` sets a known entry
/// failed with the message, keeping its progress; the last two leave the
/// queue as it was for an unknown video. No other entry changes.
pub proof fn lemma_marks_update_the_entry(q: Seq<ItemView>, path: Seq<char>, progress: u64, message: Seq<char>)
    ensures
        ({
            let i = find(q, path);
            let p = processing_spec(q, path, progress);
            let d = done_spec(q, path);
            let f = failed_spec(q, path, message);
            &&& i >= 0 ==> {
                &&& p.len() == q.len() && d.len() == q.len() && f.len() == q.len()
                &&& p[i] == ItemView { path: q[i].path, status: StatusView::Processing, progress_bits: progress }
                &&& d[i] == ItemView { path: q[i].path, status: StatusView::Done, progress_bits: 0x3FF0_0000_0000_0000 }
                &&& f[i] == ItemView { path: q[i].path, status: StatusView::Failed(message), progress_bits: q[i].progress_bits }
                &&& forall|j: int| 0 <= j < q.len() && j != i ==> #[trigger] p[j] == q[j] && d[j] == q[j] && f[j] == q[j]
            }
            &&& i < 0 ==> {
                &&& p.len() == q.len() + 1
                &&& p[q.len() as int] == ItemView { path, status: StatusView::Processing, progress_bits: progress }
                &&& forall|j: int| 0 <= j < q.len() ==> #[trigger] p[j] == q[j]
                &&& d == q
                &&& f == q
            }
        }),
{
    lemma_find(q, path);
}

/// Finishing or failing a transcription never adds or removes entries, nor
/// changes which video an entry is for.
pub proof fn lemma_marks_keep_entries(q: Seq<ItemView>, path: Seq<char>, message: Seq<char>)
    ensures
        done_spec(q, path).len() == q.len(),
        failed_spec(q, path, message).len() == q.len(),
        forall|j: int| 0 <= j < q.len() ==> (#[trigger] done_spec(q, path)[j]).path == q[j].path,
        forall|j: int| 0 <= j < q.len() ==> (#[trigger] failed_spec(q, path, message)[j]).path == q[j].path,
{
    lemma_find(q, path);
}

/// Updating or adding the entry of a path keeps at most one entry per video.
pub proof fn lemma_upsert_unique(q: Seq<ItemView>, path: Seq<char>, status: StatusView, progress: u64)
    requires
        unique_paths(q),
    ensures
        unique_paths(upsert(q, path, status, progress)),
{
    lemma_find(q, path);
    let r = upsert(q, path, status, progress);
    let i = find(q, path);
    assert forall|a: int, b: int| 0 <= a < b < r.len() implies !same_video(
        #[trigger] r[a].path,
        #[trigger] r[b].path,
    ) by {
        if b == q.len() {
            assert(!same_video(q[a].path, path));
        } else {
            assert(r[a].path == q[a].path);
            assert(r[b].path == q[b].path);
        }
    }
}

} // verus!
