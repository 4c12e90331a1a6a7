use vstd::prelude::*;
use crate::folder::{saturated, sum_first};
use crate::paths::{parent_of, parent_remote_path};
use crate::progress::{ProgressState, UploadEvent};

verus! {

/// A local file to copy to a remote path, with its size in bytes.
pub struct UploadFile {
    pub local_path: String,
    pub remote_path: String,
    pub size: u64,
}

pub open spec fn upload_sizes(files: Seq<UploadFile>) -> Seq<u64> {
    files.map_values(|f: UploadFile| f.size)
}

/// What an upload job asks its worker to do next.
pub enum UploadStep {
    /// Create the remote directory and its parents.
    MakeDir(String),
    /// Copy a local file to a remote path.
    Send { local_path: String, remote_path: String },
    /// Every file was copied; `finish` closes the job.
    Done,
}

/// An upload of one file, or of a folder file by file. For a folder the remote root is
/// created first and the parent directory of each file before it is sent; a failed
/// step ends the job with an error.
pub struct UploadJob {
    pub name: String,
    pub label: String,
    pub remote_root: String,
    pub files: Vec<UploadFile>,
    pub make_dirs: bool,
    pub root_ready: bool,
    pub dir_ready: bool,
    pub files_done: usize,
    pub done_bytes: u64,
    pub total_bytes: u64,
    pub finished: bool,
}

impl UploadJob {
    pub open spec fn wf(&self) -> bool {
        &&& self.files_done <= self.files@.len()
        &&& self.done_bytes == saturated(sum_first(upload_sizes(self.files@), self.files_done as nat))
        &&& self.total_bytes == saturated(sum_first(upload_sizes(self.files@), self.files@.len()))
        &&& (!self.make_dirs ==> self.root_ready && self.dir_ready)
    }

    /// The step that `next_step` hands out in this state, if the job is still running.
    pub open spec fn step_kind(&self) -> int {
        if self.finished {
            0
        } else if !self.root_ready {
            1
        } else if self.files_done < self.files@.len() {
            if !self.dir_ready {
                2
            } else {
                3
            }
        } else {
            4
        }
    }

    fn total_of(files: &Vec<UploadFile>) -> (t: u64)
        ensures
            t == saturated(sum_first(upload_sizes(files@), files@.len())),
    {
        let mut total: u64 = 0;
        let mut i: usize = 0;
        while i < files.len()
            invariant
                i <= files@.len(),
                total == saturated(sum_first(upload_sizes(files@), i as nat)),
            decreases files.len() - i,
        {
            let s = files[i].size;
            assert(upload_sizes(files@)[i as int] == s);
            total = if total <= u64::MAX - s {
                total + s
            } else {
                u64::MAX
            };
            i = i + 1;
        }
        total
    }

    /// The upload of one file, labelled `File: name`; no directory is created for it.
    pub fn for_file(name: String, local_path: String, remote_path: String, size: u64) -> (r: UploadJob)
        ensures
            r.wf(),
            !r.finished,
            !r.make_dirs,
            r.files_done == 0,
            r.files@.len() == 1,
            r.files@[0].local_path@ == local_path@,
            r.files@[0].remote_path@ == remote_path@,
            r.files@[0].size == size,
            r.label@ == "File: "@ + name@,
            r.name@ == name@,
    {
        let mut label = String::from_str("File: ");
        label.append(name.as_str());
        let root = remote_path.clone();
        let mut files: Vec<UploadFile> = Vec::new();
        files.push(UploadFile { local_path, remote_path, size });
        let total = Self::total_of(&files);
        UploadJob {
            name,
            label,
            remote_root: root,
            files,
            make_dirs: false,
            root_ready: true,
            dir_ready: true,
            files_done: 0,
            done_bytes: 0,
            total_bytes: total,
            finished: false,
        }
    }

    /// The upload of a folder's files to below `remote_root`, labelled `Folder: name`.
    pub fn for_folder(name: String, remote_root: String, files: Vec<UploadFile>) -> (r: UploadJob)
        ensures
            r.wf(),
            !r.finished,
            r.make_dirs,
            !r.root_ready,
            r.files_done == 0,
            r.files@ == files@,
            r.remote_root@ == remote_root@,
            r.label@ == "Folder: "@ + name@,
            r.name@ == name@,
    {
        let mut label = String::from_str("Folder: ");
        label.append(name.as_str());
        let total = Self::total_of(&files);
        UploadJob {
            name,
            label,
            remote_root,
            files,
            make_dirs: true,
            root_ready: false,
            dir_ready: false,
            files_done: 0,
            done_bytes: 0,
            total_bytes: total,
            finished: false,
        }
    }

    /// What the worker is to do next; `None` once the job has ended.
    pub fn next_step(&self) -> (r: Option<UploadStep>)
        requires
            self.wf(),
        ensures
            self.step_kind() == 0 ==> r is None,
            self.step_kind() == 1 ==> (r matches Some(UploadStep::MakeDir(d)) && d@
                == self.remote_root@),
            self.step_kind() == 2 ==> (r matches Some(UploadStep::MakeDir(d)) && d@ == parent_of(
                self.files@[self.files_done as int].remote_path@,
            )),
            self.step_kind() == 3 ==> (r matches Some(UploadStep::Send { local_path, remote_path })
                && local_path@ == self.files@[self.files_done as int].local_path@ && remote_path@
                == self.files@[self.files_done as int].remote_path@),
            self.step_kind() == 4 ==> r matches Some(UploadStep::Done),
    {
        if self.finished {
            None
        } else if !self.root_ready {
            Some(UploadStep::MakeDir(self.remote_root.clone()))
        } else if self.files_done < self.files.len() {
            let f = &self.files[self.files_done];
            if !self.dir_ready {
                Some(UploadStep::MakeDir(parent_remote_path(f.remote_path.as_str())))
            } else {
                Some(
                    UploadStep::Send {
                        local_path: f.local_path.clone(),
                        remote_path: f.remote_path.clone(),
                    },
                )
            }
        } else {
            Some(UploadStep::Done)
        }
    }

    /// Takes in the outcome of the `MakeDir` step. A failure ends the job: the returned
    /// `Completed` event carries the error, and no further file is sent.
    pub fn dir_made(&mut self, result: Result<(), String>) -> (ev: Option<UploadEvent>)
        requires
            old(self).wf(),
            old(self).step_kind() == 1 || old(self).step_kind() == 2,
        ensures
            final(self).wf(),
            final(self).files_done == old(self).files_done,
            final(self).files@ == old(self).files@,
            match result {
                Ok(_) => {
                    &&& ev is None
                    &&& !final(self).finished
                    &&& final(self).root_ready
                    &&& old(self).step_kind() == 1 ==> final(self).dir_ready == old(self).dir_ready
                    &&& old(self).step_kind() == 2 ==> final(self).dir_ready
                },
                Err(e) => {
                    &&& final(self).finished
                    &&& ev matches Some(UploadEvent::Completed { file_name, result: r })
                        && file_name@ == old(self).name@ && r is Err && r->Err_0@ == e@
                },
            },
    {
        match result {
            Ok(()) => {
                if !self.root_ready {
                    self.root_ready = true;
                } else {
                    self.dir_ready = true;
                }
                None
            },
            Err(e) => {
                self.finished = true;
                Some(UploadEvent::Completed { file_name: self.name.clone(), result: Err(e) })
            },
        }
    }

    /// Takes in the outcome of the `Send` step: a `Progress` event when the file was
    /// copied, else the `Completed` event with the error, which ends the job.
    pub fn file_sent(&mut self, result: Result<(), String>) -> (ev: UploadEvent)
        requires
            old(self).wf(),
            old(self).step_kind() == 3,
        ensures
            final(self).wf(),
            final(self).files@ == old(self).files@,
            match result {
                Ok(_) => {
                    &&& !final(self).finished
                    &&& final(self).files_done == old(self).files_done + 1
                    &&& ev matches UploadEvent::Progress(p) && p.label@ == old(self).label@
                        && p.files_done == final(self).files_done && p.files_total
                        == old(self).files@.len() && p.done_bytes == final(self).done_bytes
                        && p.total_bytes == old(self).total_bytes
                },
                Err(e) => {
                    &&& final(self).finished
                    &&& final(self).files_done == old(self).files_done
                    &&& ev matches UploadEvent::Completed { file_name, result: r } && file_name@
                        == old(self).name@ && r is Err && r->Err_0@ == e@
                },
            },
    {
        match result {
            Ok(()) => {
                let len = self.files.len();
                let s = self.files[self.files_done].size;
                let ghost n = self.files_done as nat;
                assert(upload_sizes(self.files@)[n as int] == s);
                self.done_bytes = if self.done_bytes <= u64::MAX - s {
                    self.done_bytes + s
                } else {
                    u64::MAX
                };
                self.files_done = self.files_done + 1;
                self.dir_ready = !self.make_dirs;
                UploadEvent::Progress(
                    ProgressState {
                        label: self.label.clone(),
                        files_done: self.files_done,
                        files_total: len,
                        done_bytes: self.done_bytes,
                        total_bytes: self.total_bytes,
                    },
                )
            },
            Err(e) => {
                self.finished = true;
                UploadEvent::Completed { file_name: self.name.clone(), result: Err(e) }
            },
        }
    }

    /// Every file was sent: ends the job with its `Completed` event.
    pub fn finish(&mut self) -> (ev: UploadEvent)
        requires
            old(self).wf(),
            old(self).step_kind() == 4,
        ensures
            final(self).wf(),
            final(self).finished,
            ev matches UploadEvent::Completed { file_name, result } && file_name@ == old(self).name@
                && result is Ok,
    {
        self.finished = true;
        UploadEvent::Completed { file_name: self.name.clone(), result: Ok(()) }
    }
}

} // verus!
