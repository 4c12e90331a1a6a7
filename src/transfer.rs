use vstd::prelude::*;

verus! {

/// How many single-file downloads may run at once.
pub const MAX_PARALLEL_DOWNLOADS: usize = 3;

/// A request to copy one remote file to a local path.
pub struct DownloadJob {
    pub id: u64,
    pub file_name: String,
    pub local_path: String,
    pub remote_path: String,
    pub total_size: Option<u64>,
}

pub struct JobView {
    pub id: u64,
    pub file_name: Seq<char>,
    pub local_path: Seq<char>,
    pub remote_path: Seq<char>,
    pub total_size: Option<u64>,
}

impl View for DownloadJob {
    type V = JobView;

    open spec fn view(&self) -> JobView {
        JobView {
            id: self.id,
            file_name: self.file_name@,
            local_path: self.local_path@,
            remote_path: self.remote_path@,
            total_size: self.total_size,
        }
    }
}

impl DownloadJob {
    pub fn duplicate(&self) -> (r: DownloadJob)
        ensures
            r@ == self@,
    {
        DownloadJob {
            id: self.id,
            file_name: self.file_name.clone(),
            local_path: self.local_path.clone(),
            remote_path: self.remote_path.clone(),
            total_size: self.total_size,
        }
    }
}

/// A download that a worker is running, with the size its file has reached on disk.
pub struct ActiveDownload {
    pub job: DownloadJob,
    pub current_size: u64,
}

pub open spec fn job_views(s: Seq<DownloadJob>) -> Seq<JobView> {
    s.map_values(|j: DownloadJob| j@)
}

pub open spec fn active_jobs(s: Seq<ActiveDownload>) -> Seq<JobView> {
    s.map_values(|a: ActiveDownload| a.job@)
}

/// The active downloads but those with identifier `id`, in their order.
pub open spec fn without_id(s: Seq<JobView>, id: u64) -> Seq<JobView>
    decreases s.len(),
{
    if s.len() == 0 {
        s
    } else if s.last().id == id {
        without_id(s.drop_last(), id)
    } else {
        without_id(s.drop_last(), id).push(s.last())
    }
}

/// The queue of single-file downloads and the pool that runs them: jobs wait in
/// `pending` in the order they were asked for, and at most `MAX_PARALLEL_DOWNLOADS`
/// of them are `active` at a time.
pub struct DownloadManager {
    pub pending: Vec<DownloadJob>,
    pub active: Vec<ActiveDownload>,
    pub next_id: u64,
}

impl DownloadManager {
    pub open spec fn wf(&self) -> bool {
        &&& self.active@.len() <= MAX_PARALLEL_DOWNLOADS
        &&& self.next_id >= 1
    }

    pub fn new() -> (r: DownloadManager)
        ensures
            r.wf(),
            r.pending@.len() == 0,
            r.active@.len() == 0,
            r.next_id == 1,
    {
        DownloadManager { pending: Vec::new(), active: Vec::new(), next_id: 1 }
    }

    pub fn active_count(&self) -> (r: usize)
        ensures
            r == self.active@.len(),
    {
        self.active.len()
    }

    pub fn queued_count(&self) -> (r: usize)
        ensures
            r == self.pending@.len(),
    {
        self.pending.len()
    }

    /// Appends a job to the queue under a fresh identifier, which it returns.
    pub fn enqueue(
        &mut self,
        file_name: String,
        remote_path: String,
        local_path: String,
        total_size: Option<u64>,
    ) -> (id: u64)
        requires
            old(self).wf(),
            old(self).next_id < u64::MAX,
        ensures
            final(self).wf(),
            id == old(self).next_id,
            final(self).next_id == old(self).next_id + 1,
            job_views(final(self).pending@) == job_views(old(self).pending@).push(
                JobView {
                    id,
                    file_name: file_name@,
                    local_path: local_path@,
                    remote_path: remote_path@,
                    total_size,
                },
            ),
            final(self).active@ == old(self).active@,
    {
        let id = self.next_id;
        let ghost before = self.pending@;
        self.pending.push(DownloadJob { id, file_name, local_path, remote_path, total_size });
        self.next_id = id + 1;
        assert(job_views(self.pending@) =~= job_views(before).push(self.pending@.last()@));
        id
    }

    /// Moves queued jobs, oldest first, into the active set while fewer than
    /// `MAX_PARALLEL_DOWNLOADS` are active; returns the jobs moved, for workers to run.
    pub fn start_ready(&mut self) -> (started: Vec<DownloadJob>)
        requires
            old(self).wf(),
        ensures
            final(self).wf(),
            ({
                let k = if old(self).pending@.len() <= MAX_PARALLEL_DOWNLOADS
                    - old(self).active@.len() {
                    old(self).pending@.len() as int
                } else {
                    MAX_PARALLEL_DOWNLOADS - old(self).active@.len()
                };
                &&& job_views(started@) == job_views(old(self).pending@).subrange(0, k)
                &&& job_views(final(self).pending@) == job_views(old(self).pending@).subrange(
                    k,
                    old(self).pending@.len() as int,
                )
                &&& active_jobs(final(self).active@) == active_jobs(old(self).active@)
                    + job_views(started@)
            }),
            forall|i: int|
                old(self).active@.len() <= i < final(self).active@.len()
                    ==> #[trigger] final(self).active@[i].current_size == 0,
            final(self).next_id == old(self).next_id,
    {
        let mut started: Vec<DownloadJob> = Vec::new();
        let ghost p0 = job_views(self.pending@);
        let ghost a0 = self.active@;
        let mut taken: usize = 0;
        while self.active.len() < MAX_PARALLEL_DOWNLOADS && taken < self.pending.len()
            invariant
                self.next_id == old(self).next_id,
                self.pending@ == old(self).pending@,
                self.wf(),
                taken <= self.pending@.len(),
                self.active@.len() == a0.len() + taken,
                job_views(started@) == p0.subrange(0, taken as int),
                active_jobs(self.active@) == active_jobs(a0) + job_views(started@),
                forall|i: int|
                    a0.len() <= i < self.active@.len() ==> #[trigger] self.active@[i].current_size
                        == 0,
                p0 == job_views(old(self).pending@),
                a0 == old(self).active@,
            decreases self.pending.len() - taken,
        {
            let job = self.pending[taken].duplicate();
            let copy = job.duplicate();
            let ghost s0 = started@;
            let ghost act = self.active@;
            started.push(job);
            self.active.push(ActiveDownload { job: copy, current_size: 0 });
            assert(job_views(started@) =~= job_views(s0).push(copy@));
            assert(p0.subrange(0, taken + 1) =~= p0.subrange(0, taken as int).push(p0[taken as int]));
            assert(active_jobs(self.active@) =~= active_jobs(act).push(copy@));
            taken = taken + 1;
        }
        let ghost rest_before = self.pending@;
        let rest = self.pending.split_off(taken);
        self.pending = rest;
        assert(job_views(self.pending@) =~= p0.subrange(taken as int, p0.len() as int));
        started
    }

    /// Drops the active download with identifier `id`, once its worker has reported.
    pub fn complete(&mut self, id: u64)
        requires
            old(self).wf(),
        ensures
            final(self).wf(),
            active_jobs(final(self).active@) == without_id(active_jobs(old(self).active@), id),
            final(self).pending@ == old(self).pending@,
            final(self).next_id == old(self).next_id,
    {
        let mut kept: Vec<ActiveDownload> = Vec::new();
        let mut i: usize = 0;
        while i < self.active.len()
            invariant
                self.pending@ == old(self).pending@,
                self.next_id == old(self).next_id,
                self.active@ == old(self).active@,
                old(self).wf(),
                i <= self.active@.len(),
                kept@.len() <= i,
                active_jobs(kept@) == without_id(active_jobs(self.active@.subrange(0, i as int)), id),
            decreases self.active.len() - i,
        {
            let a = &self.active[i];
            let ghost prev = active_jobs(self.active@.subrange(0, i as int));
            assert(active_jobs(self.active@.subrange(0, i + 1)) =~= prev.push(a.job@));
            assert(prev.push(a.job@).drop_last() =~= prev);
            if a.job.id != id {
                let ghost k0 = kept@;
                kept.push(ActiveDownload { job: a.job.duplicate(), current_size: a.current_size });
                assert(active_jobs(kept@) =~= active_jobs(k0).push(a.job@));
            }
            i = i + 1;
        }
        assert(self.active@.subrange(0, i as int) =~= self.active@);
        self.active = kept;
    }

    /// Records the size that the file of download `id` has reached.
    pub fn set_current_size(&mut self, id: u64, size: u64)
        requires
            old(self).wf(),
        ensures
            final(self).wf(),
            active_jobs(final(self).active@) == active_jobs(old(self).active@),
            final(self).pending@ == old(self).pending@,
            final(self).next_id == old(self).next_id,
            forall|i: int|
                0 <= i < final(self).active@.len() ==> #[trigger] final(self).active@[i].current_size
                    == if old(self).active@[i].job.id == id {
                    size
                } else {
                    old(self).active@[i].current_size
                },
    {
        let mut updated: Vec<ActiveDownload> = Vec::new();
        let mut i: usize = 0;
        while i < self.active.len()
            invariant
                self.active@ == old(self).active@,
                i <= self.active@.len(),
                updated@.len() == i,
                active_jobs(updated@) == active_jobs(self.active@.subrange(0, i as int)),
                forall|j: int|
                    0 <= j < i ==> #[trigger] updated@[j].current_size == if self.active@[j].job.id
                        == id {
                        size
                    } else {
                        self.active@[j].current_size
                    },
            decreases self.active.len() - i,
        {
            let a = &self.active[i];
            let cur = if a.job.id == id {
                size
            } else {
                a.current_size
            };
            let ghost u0 = updated@;
            updated.push(ActiveDownload { job: a.job.duplicate(), current_size: cur });
            assert(active_jobs(updated@) =~= active_jobs(u0).push(a.job@));
            assert(active_jobs(self.active@.subrange(0, i + 1)) =~= active_jobs(
                self.active@.subrange(0, i as int),
            ).push(a.job@));
            assert(updated@[i as int].current_size == cur);
            i = i + 1;
        }
        assert(self.active@.subrange(0, i as int) =~= self.active@);
        self.active = updated;
    }
}

/// However the queue and pool have been driven, no more than `MAX_PARALLEL_DOWNLOADS`
/// single-file downloads are active at once.
pub proof fn lemma_pool_bound(m: DownloadManager)
    requires
        m.wf(),
    ensures
        m.active@.len() <= MAX_PARALLEL_DOWNLOADS,
{
}

} // verus!
