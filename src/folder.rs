use vstd::prelude::*;
use crate::listing::{views, EntryView, FileEntry};
use crate::paths::{join_local_path, join_remote_path, joined_local, joined_remote};
use crate::progress::{DownloadEvent, ProgressState};
use crate::text::{occurs_at_exec, string_views};

verus! {

/// A remote file found under a folder that is being downloaded, with its size in bytes.
pub struct RemoteFile {
    pub path: String,
    pub size: u64,
}

/// The depth-first walk of a remote folder that lists what a folder download will copy.
pub struct FolderScan {
    pub dirs: Vec<String>,
    pub files: Vec<RemoteFile>,
}

/// The directories of a listing of `dir`, as full paths, `..` left out.
pub open spec fn subdirs(dir: Seq<char>, listing: Seq<EntryView>) -> Seq<Seq<char>>
    decreases listing.len(),
{
    if listing.len() == 0 {
        Seq::empty()
    } else {
        let rest = subdirs(dir, listing.drop_last());
        let e = listing.last();
        if e.1 && e.0 != seq!['.', '.'] {
            rest.push(joined_remote(dir, e.0))
        } else {
            rest
        }
    }
}

/// The files of a listing of `dir`, as full paths.
pub open spec fn files_in(dir: Seq<char>, listing: Seq<EntryView>) -> Seq<Seq<char>>
    decreases listing.len(),
{
    if listing.len() == 0 {
        Seq::empty()
    } else {
        let rest = files_in(dir, listing.drop_last());
        let e = listing.last();
        if !e.1 && e.0 != seq!['.', '.'] {
            rest.push(joined_remote(dir, e.0))
        } else {
            rest
        }
    }
}

impl FolderScan {
    pub fn new(root: &str) -> (r: FolderScan)
        ensures
            string_views(r.dirs@) == seq![root@],
            r.files@.len() == 0,
    {
        let mut dirs: Vec<String> = Vec::new();
        dirs.push(String::from_str(root));
        assert(string_views(dirs@) =~= seq![root@]);
        FolderScan { dirs, files: Vec::new() }
    }

    /// The next directory to list, the one found last.
    pub fn next_dir(&mut self) -> (r: Option<String>)
        ensures
            old(self).dirs@.len() == 0 ==> r is None && final(self).dirs@.len() == 0,
            old(self).dirs@.len() > 0 ==> r is Some && r->0 == old(self).dirs@.last()
                && final(self).dirs@ == old(self).dirs@.drop_last(),
            final(self).files@ == old(self).files@,
    {
        self.dirs.pop()
    }

    /// Takes in the listing of `dir`: its directories are to be walked, and its files,
    /// returned in listing order, are to have their sizes probed.
    pub fn add_listing(&mut self, dir: &str, listing: &Vec<FileEntry>) -> (to_probe: Vec<String>)
        ensures
            string_views(final(self).dirs@) == string_views(old(self).dirs@) + subdirs(
                dir@,
                views(listing@),
            ),
            string_views(to_probe@) == files_in(dir@, views(listing@)),
            final(self).files@ == old(self).files@,
    {
        let mut to_probe: Vec<String> = Vec::new();
        let ghost d0 = string_views(self.dirs@);
        proof {
            reveal_strlit("..");
        }
        let mut i: usize = 0;
        while i < listing.len()
            invariant
                i <= listing@.len(),
                self.files@ == old(self).files@,
                d0 == string_views(old(self).dirs@),
                string_views(self.dirs@) == d0 + subdirs(
                    dir@,
                    views(listing@.subrange(0, i as int)),
                ),
                string_views(to_probe@) == files_in(dir@, views(listing@.subrange(0, i as int))),
            decreases listing.len() - i,
        {
            let e = &listing[i];
            let ghost prev = views(listing@.subrange(0, i as int));
            assert(views(listing@.subrange(0, i + 1)) =~= prev.push(e@));
            assert(prev.push(e@).drop_last() =~= prev);
            proof {
                reveal_strlit("..");
            }
            let dots = String::from_str("..");
            assert(dots@ == seq!['.', '.']);
            if e.name != dots {
                let full = join_remote_path(dir, e.name.as_str());
                if e.is_dir {
                    let ghost before = self.dirs@;
                    self.dirs.push(full);
                    assert(string_views(self.dirs@) =~= string_views(before).push(full@));
                } else {
                    let ghost before = to_probe@;
                    to_probe.push(full);
                    assert(string_views(to_probe@) =~= string_views(before).push(full@));
                }
            }
            i = i + 1;
        }
        assert(listing@.subrange(0, i as int) =~= listing@);
        to_probe
    }

    /// Records a file whose size probe answered; an unknown size counts as 0.
    pub fn add_file(&mut self, path: String, size: Option<u64>)
        ensures
            final(self).dirs@ == old(self).dirs@,
            final(self).files@.len() == old(self).files@.len() + 1,
            forall|i: int|
                0 <= i < old(self).files@.len() ==> #[trigger] final(self).files@[i] == old(
                    self,
                ).files@[i],
            final(self).files@.last().path@ == path@,
            final(self).files@.last().size == match size {
                Some(s) => s,
                None => 0,
            },
    {
        let s = match size {
            Some(s) => s,
            None => 0,
        };
        self.files.push(RemoteFile { path, size: s });
    }
}

/// What a folder download has reported so far, one entry per event.
pub enum FolderEventView {
    Progress { files_done: nat, done_bytes: nat },
    Completed { ok: bool },
}

pub open spec fn sizes(files: Seq<RemoteFile>) -> Seq<u64> {
    files.map_values(|f: RemoteFile| f.size)
}

/// Sum of the first `n` sizes.
pub open spec fn sum_first(s: Seq<u64>, n: nat) -> nat
    decreases n,
{
    if n == 0 || s.len() == 0 {
        0
    } else if n > s.len() {
        sum_first(s, s.len())
    } else {
        sum_first(s, (n - 1) as nat) + s[n - 1] as nat
    }
}

/// `x`, or the largest `u64` where `x` exceeds it.
pub open spec fn saturated(x: nat) -> nat {
    if x > u64::MAX {
        u64::MAX as nat
    } else {
        x
    }
}

pub open spec fn completed_count(events: Seq<FolderEventView>) -> nat
    decreases events.len(),
{
    if events.len() == 0 {
        0
    } else {
        completed_count(events.drop_last()) + if events.last() is Completed {
            1nat
        } else {
            0nat
        }
    }
}

/// Path components after the last `/` of `s`.
pub open spec fn last_component(s: Seq<char>) -> Seq<char>
    decreases s.len(),
{
    if s.len() == 0 {
        s
    } else if s.last() == '/' {
        Seq::empty()
    } else {
        last_component(s.drop_last()).push(s.last())
    }
}

/// `root` with a `/` at its end.
pub open spec fn dir_prefix(root: Seq<char>) -> Seq<char> {
    if root.len() > 0 && root.last() == '/' {
        root
    } else {
        root.push('/')
    }
}

/// Where a file found under `remote_root` is saved under `local_root`: at the same
/// path relative to the roots, or by its bare name when it does not lie below the root.
pub open spec fn local_target(remote_root: Seq<char>, file: Seq<char>, local_root: Seq<char>) -> Seq<
    char,
> {
    let p = dir_prefix(remote_root);
    let rel = if p.len() < file.len() && file.subrange(0, p.len() as int) == p {
        file.subrange(p.len() as int, file.len() as int)
    } else {
        last_component(file)
    };
    joined_local(local_root, rel)
}

/// The transfer phase of a folder download: its files are copied one after another,
/// a `Progress` event after each, and exactly one `Completed` event closes the job.
pub struct FolderTransfer {
    pub label: String,
    pub remote_root: String,
    pub local_root: String,
    pub files: Vec<RemoteFile>,
    pub files_done: usize,
    pub done_bytes: u64,
    pub total_bytes: u64,
    pub finished: bool,
    pub events: Ghost<Seq<FolderEventView>>,
}

impl FolderTransfer {
    pub open spec fn wf(&self) -> bool {
        let ev = self.events@;
        &&& self.files_done <= self.files@.len()
        &&& self.done_bytes == saturated(sum_first(sizes(self.files@), self.files_done as nat))
        &&& self.total_bytes == saturated(sum_first(sizes(self.files@), self.files@.len()))
        &&& ev.len() >= 1
        &&& ev[0] == FolderEventView::Progress { files_done: 0, done_bytes: 0 }
        &&& forall|i: int| 0 <= i < ev.len() - 1 ==> #[trigger] ev[i] is Progress
        &&& self.finished <==> ev.last() is Completed
        &&& forall|i: int|
            0 <= i < ev.len() && #[trigger] ev[i] is Progress ==> ev[i]->Progress_files_done
                <= self.files_done && ev[i]->Progress_done_bytes <= self.done_bytes
        &&& forall|i: int, j: int|
            0 <= i < j < ev.len() && #[trigger] ev[i] is Progress && #[trigger] ev[j] is Progress
                ==> ev[i]->Progress_files_done <= ev[j]->Progress_files_done
                && ev[i]->Progress_done_bytes <= ev[j]->Progress_done_bytes
    }

    fn progress_state(&self) -> (r: ProgressState)
        ensures
            r.label@ == self.label@,
            r.files_done == self.files_done,
            r.files_total == self.files@.len(),
            r.done_bytes == self.done_bytes,
            r.total_bytes == self.total_bytes,
    {
        ProgressState {
            label: self.label.clone(),
            files_done: self.files_done,
            files_total: self.files.len(),
            done_bytes: self.done_bytes,
            total_bytes: self.total_bytes,
        }
    }

    /// Starts the transfer of the files that a scan found; returns it with its first
    /// event, a `Progress` event with nothing done yet.
    pub fn start(label: String, remote_root: String, local_root: String, files: Vec<RemoteFile>) -> (r: (
        FolderTransfer,
        DownloadEvent,
    ))
        ensures
            r.0.wf(),
            !r.0.finished,
            r.0.files_done == 0,
            r.0.label@ == label@,
            r.0.remote_root@ == remote_root@,
            r.0.local_root@ == local_root@,
            r.0.files@ == files@,
            r.0.events@ == seq![FolderEventView::Progress { files_done: 0, done_bytes: 0 }],
            r.1 matches DownloadEvent::Progress(p) && p.label@ == label@ && p.files_done == 0
                && p.files_total == files@.len() && p.done_bytes == 0 && p.total_bytes
                == saturated(sum_first(sizes(files@), files@.len())),
    {
        let mut total: u64 = 0;
        let mut i: usize = 0;
        while i < files.len()
            invariant
                i <= files@.len(),
                total == saturated(sum_first(sizes(files@), i as nat)),
            decreases files.len() - i,
        {
            let s = files[i].size;
            total = if total <= u64::MAX - s {
                total + s
            } else {
                u64::MAX
            };
            assert(sizes(files@)[i as int] == s);
            i = i + 1;
        }
        let ghost first = seq![FolderEventView::Progress { files_done: 0, done_bytes: 0 }];
        let t = FolderTransfer {
            label,
            remote_root,
            local_root,
            files,
            files_done: 0,
            done_bytes: 0,
            total_bytes: total,
            finished: false,
            events: Ghost(first),
        };
        let ev = DownloadEvent::Progress(t.progress_state());
        (t, ev)
    }

    /// The remote path and local target of the next file to copy, if any is left.
    pub fn next_transfer(&self) -> (r: Option<(String, String)>)
        ensures
            r is Some <==> !self.finished && self.files_done < self.files@.len(),
            r matches Some((remote, local)) ==> remote@ == self.files@[self.files_done as int].path@
                && local@ == local_target(
                self.remote_root@,
                self.files@[self.files_done as int].path@,
                self.local_root@,
            ),
    {
        if self.finished || self.files_done >= self.files.len() {
            return None;
        }
        let f = &self.files[self.files_done];
        let local = local_target_path(
            self.remote_root.as_str(),
            f.path.as_str(),
            self.local_root.as_str(),
        );
        Some((f.path.clone(), local))
    }

    /// The next file was copied: counts it and returns the `Progress` event to send.
    pub fn file_succeeded(&mut self) -> (ev: DownloadEvent)
        requires
            old(self).wf(),
            !old(self).finished,
            old(self).files_done < old(self).files@.len(),
        ensures
            final(self).wf(),
            !final(self).finished,
            final(self).files_done == old(self).files_done + 1,
            final(self).files@ == old(self).files@,
            final(self).total_bytes == old(self).total_bytes,
            final(self).events@ == old(self).events@.push(
                FolderEventView::Progress {
                    files_done: final(self).files_done as nat,
                    done_bytes: final(self).done_bytes as nat,
                },
            ),
            ev matches DownloadEvent::Progress(p) && p.label@ == old(self).label@ && p.files_done
                == final(self).files_done && p.files_total == old(self).files@.len()
                && p.done_bytes == final(self).done_bytes && p.total_bytes == old(
                self,
            ).total_bytes,
            final(self).done_bytes == saturated(
                (old(self).done_bytes + old(self).files@[old(self).files_done as int].size) as nat,
            ),
    {
        let len = self.files.len();
        let s = self.files[self.files_done].size;
        let ghost n = self.files_done as nat;
        let ghost before = self.events@;
        let ghost sz = sizes(self.files@);
        assert(sz[n as int] == s);
        assert(sum_first(sz, n + 1) == sum_first(sz, n) + s);
        self.done_bytes = if self.done_bytes <= u64::MAX - s {
            self.done_bytes + s
        } else {
            u64::MAX
        };
        self.files_done = self.files_done + 1;
        let ghost fresh = FolderEventView::Progress {
            files_done: self.files_done as nat,
            done_bytes: self.done_bytes as nat,
        };
        self.events = Ghost(before.push(fresh));
        proof {
            let ev = self.events@;
            assert(ev[0] == before[0]);
            assert forall|i: int| 0 <= i < ev.len() - 1 implies #[trigger] ev[i] is Progress by {
                if i < before.len() - 1 {
                    assert(ev[i] == before[i]);
                } else {
                    assert(ev[i] == before.last());
                }
            }
            assert forall|i: int|
                0 <= i < ev.len() && #[trigger] ev[i] is Progress implies ev[i]->Progress_files_done
                <= self.files_done && ev[i]->Progress_done_bytes <= self.done_bytes by {
                if i < before.len() {
                    assert(ev[i] == before[i]);
                }
            }
            assert forall|i: int, j: int|
                0 <= i < j < ev.len() && #[trigger] ev[i] is Progress && #[trigger] ev[j] is Progress
                    implies ev[i]->Progress_files_done <= ev[j]->Progress_files_done
                && ev[i]->Progress_done_bytes <= ev[j]->Progress_done_bytes by {
                assert(ev[i] == before[i]);
                if j < before.len() {
                    assert(ev[j] == before[j]);
                }
            }
        }
        DownloadEvent::Progress(self.progress_state())
    }

    proof fn lemma_closing(&self, before: Seq<FolderEventView>, ok: bool)
        requires
            !self.finished,
            self.files_done <= self.files@.len(),
            before.len() >= 1,
            before[0] == (FolderEventView::Progress { files_done: 0, done_bytes: 0 }),
            forall|i: int| 0 <= i < before.len() - 1 ==> #[trigger] before[i] is Progress,
            !(before.last() is Completed),
            forall|i: int|
                0 <= i < before.len() && #[trigger] before[i] is Progress
                    ==> before[i]->Progress_files_done <= self.files_done
                    && before[i]->Progress_done_bytes <= self.done_bytes,
            forall|i: int, j: int|
                0 <= i < j < before.len() && #[trigger] before[i] is Progress
                    && #[trigger] before[j] is Progress ==> before[i]->Progress_files_done
                    <= before[j]->Progress_files_done && before[i]->Progress_done_bytes
                    <= before[j]->Progress_done_bytes,
        ensures
            ({
                let ev = before.push(FolderEventView::Completed { ok });
                &&& ev[0] == FolderEventView::Progress { files_done: 0, done_bytes: 0 }
                &&& forall|i: int| 0 <= i < ev.len() - 1 ==> #[trigger] ev[i] is Progress
                &&& forall|i: int|
                    0 <= i < ev.len() && #[trigger] ev[i] is Progress
                        ==> ev[i]->Progress_files_done <= self.files_done
                        && ev[i]->Progress_done_bytes <= self.done_bytes
                &&& forall|i: int, j: int|
                    0 <= i < j < ev.len() && #[trigger] ev[i] is Progress
                        && #[trigger] ev[j] is Progress ==> ev[i]->Progress_files_done
                        <= ev[j]->Progress_files_done && ev[i]->Progress_done_bytes
                        <= ev[j]->Progress_done_bytes
            }),
    {
        let ev = before.push(FolderEventView::Completed { ok });
        assert forall|i: int| 0 <= i < ev.len() - 1 implies #[trigger] ev[i] is Progress by {
            if i < before.len() - 1 {
                assert(ev[i] == before[i]);
            } else {
                assert(ev[i] == before.last());
            }
        }
        assert forall|i: int|
            0 <= i < ev.len() && #[trigger] ev[i] is Progress implies ev[i]->Progress_files_done
            <= self.files_done && ev[i]->Progress_done_bytes <= self.done_bytes by {
            assert(ev[i] == before[i]);
        }
        assert forall|i: int, j: int|
            0 <= i < j < ev.len() && #[trigger] ev[i] is Progress && #[trigger] ev[j] is Progress
                implies ev[i]->Progress_files_done <= ev[j]->Progress_files_done
            && ev[i]->Progress_done_bytes <= ev[j]->Progress_done_bytes by {
            assert(ev[i] == before[i]);
            assert(ev[j] == before[j]);
        }
    }

    /// The next file could not be copied, or the local root could not be made: the job
    /// ends here; returns its `Completed` event with the error.
    pub fn fail(&mut self, err: String) -> (ev: DownloadEvent)
        requires
            old(self).wf(),
            !old(self).finished,
        ensures
            final(self).wf(),
            final(self).finished,
            final(self).files_done == old(self).files_done,
            final(self).events@ == old(self).events@.push(FolderEventView::Completed { ok: false }),
            ev matches DownloadEvent::Completed { id, file_name, local_path, result } && id == 0
                && file_name@ == old(self).label@ && local_path@ == old(self).local_root@
                && result is Err && result->Err_0@ == err@,
    {
        let ghost before = self.events@;
        proof {
            self.lemma_closing(before, false);
        }
        self.finished = true;
        self.events = Ghost(before.push(FolderEventView::Completed { ok: false }));
        DownloadEvent::Completed {
            id: 0,
            file_name: self.label.clone(),
            local_path: self.local_root.clone(),
            result: Err(err),
        }
    }

    /// Every file was copied: the job ends; returns its `Completed` event.
    pub fn finish(&mut self) -> (ev: DownloadEvent)
        requires
            old(self).wf(),
            !old(self).finished,
            old(self).files_done == old(self).files@.len(),
        ensures
            final(self).wf(),
            final(self).finished,
            final(self).events@ == old(self).events@.push(FolderEventView::Completed { ok: true }),
            ev matches DownloadEvent::Completed { id, file_name, local_path, result } && id == 0
                && file_name@ == old(self).label@ && local_path@ == old(self).local_root@
                && result is Ok,
    {
        let ghost before = self.events@;
        proof {
            self.lemma_closing(before, true);
        }
        self.finished = true;
        self.events = Ghost(before.push(FolderEventView::Completed { ok: true }));
        DownloadEvent::Completed {
            id: 0,
            file_name: self.label.clone(),
            local_path: self.local_root.clone(),
            result: Ok(()),
        }
    }
}

/// The part of `s` after its last `/`.
fn last_component_str(s: &str) -> (r: String)
    ensures
        r@ == last_component(s@),
{
    let n = s.unicode_len();
    let mut k = n;
    assert(s@.subrange(0, n as int) =~= s@);
    while k > 0 && s.get_char(k - 1) != '/'
        invariant
            k <= n == s@.len(),
            last_component(s@) == last_component(s@.subrange(0, k as int)) + s@.subrange(
                k as int,
                n as int,
            ),
        decreases k,
    {
        let ghost pre = s@.subrange(0, k as int);
        assert(pre.drop_last() =~= s@.subrange(0, k - 1));
        assert(s@.subrange(k - 1, n as int) =~= seq![pre.last()] + s@.subrange(k as int, n as int));
        k = k - 1;
    }
    if k > 0 {
        assert(s@.subrange(0, k as int).last() == '/');
    } else {
        assert(s@.subrange(0, 0) =~= Seq::<char>::empty());
    }
    String::from_str(s.substring_char(k, n))
}

/// Where the file `file`, found under `remote_root`, is saved under `local_root`.
pub fn local_target_path(remote_root: &str, file: &str, local_root: &str) -> (r: String)
    ensures
        r@ == local_target(remote_root@, file@, local_root@),
{
    let n = remote_root.unicode_len();
    let mut prefix = String::from_str(remote_root);
    if !(n > 0 && remote_root.get_char(n - 1) == '/') {
        prefix.append("/");
        proof {
            reveal_strlit("/");
        }
    }
    assert(prefix@ == dir_prefix(remote_root@));
    let p = prefix.as_str().unicode_len();
    let m = file.unicode_len();
    let rel = if p < m && occurs_at_exec(file, prefix.as_str(), 0) {
        assert(file@.subrange(0, p as int) == prefix@);
        String::from_str(file.substring_char(p, m))
    } else {
        last_component_str(file)
    };
    join_local_path(local_root, rel.as_str())
}

/// A folder download emits exactly one `Completed` event once it has finished and
/// none before, and the counts and byte totals of its `Progress` events never go down.
pub proof fn lemma_folder_events(t: FolderTransfer)
    requires
        t.wf(),
    ensures
        completed_count(t.events@) == if t.finished {
            1nat
        } else {
            0nat
        },
        forall|i: int, j: int|
            0 <= i < j < t.events@.len() && #[trigger] t.events@[i] is Progress
                && #[trigger] t.events@[j] is Progress
                ==> t.events@[i]->Progress_files_done <= t.events@[j]->Progress_files_done
                && t.events@[i]->Progress_done_bytes <= t.events@[j]->Progress_done_bytes,
{
    let ev = t.events@;
    lemma_progress_prefix_count(ev.drop_last());
    assert(forall|i: int| 0 <= i < ev.drop_last().len() ==> #[trigger] ev.drop_last()[i] == ev[i]);
}

proof fn lemma_progress_prefix_count(s: Seq<FolderEventView>)
    requires
        forall|i: int| 0 <= i < s.len() ==> #[trigger] s[i] is Progress,
    ensures
        completed_count(s) == 0,
    decreases s.len(),
{
    if s.len() > 0 {
        assert(s.last() == s[s.len() - 1]);
        let d = s.drop_last();
        assert forall|i: int| 0 <= i < d.len() implies #[trigger] d[i] is Progress by {
            assert(d[i] == s[i]);
        }
        lemma_progress_prefix_count(d);
    }
}

} // verus!
