use vstd::prelude::*;
use crate::paths::{decimal, decimal_string};
use crate::transfer::{active_jobs, without_id, DownloadManager};

verus! {

/// Where a transfer of several files stands.
pub struct ProgressState {
    pub label: String,
    pub files_done: usize,
    pub files_total: usize,
    pub done_bytes: u64,
    pub total_bytes: u64,
}

/// What a download worker reports.
pub enum DownloadEvent {
    Completed { id: u64, file_name: String, local_path: String, result: Result<(), String> },
    Progress(ProgressState),
}

/// What an upload worker reports.
pub enum UploadEvent {
    Completed { file_name: String, result: Result<(), String> },
    Progress(ProgressState),
}

/// The transfer state that the display shows; only the loop that drains the workers'
/// events changes it.
pub struct TransferState {
    pub downloads: DownloadManager,
    pub download_progress: Option<ProgressState>,
    pub upload_progress: Option<ProgressState>,
    pub message: Option<String>,
}

impl TransferState {
    pub fn new() -> (r: TransferState)
        ensures
            r.downloads.wf(),
            r.downloads.pending@.len() == 0,
            r.downloads.active@.len() == 0,
            r.download_progress is None,
            r.upload_progress is None,
            r.message is None,
    {
        TransferState {
            downloads: DownloadManager::new(),
            download_progress: None,
            upload_progress: None,
            message: None,
        }
    }

    /// Takes in one event of a download worker. Returns whether the local listing
    /// must be read again (a download succeeded).
    pub fn apply_download_event(&mut self, ev: DownloadEvent) -> (refresh_local: bool)
        requires
            old(self).downloads.wf(),
        ensures
            final(self).downloads.wf(),
            final(self).upload_progress == old(self).upload_progress,
            final(self).downloads.pending@ == old(self).downloads.pending@,
            match ev {
                DownloadEvent::Completed { id, file_name, local_path, result } => {
                    &&& final(self).download_progress is None
                    &&& active_jobs(final(self).downloads.active@) == without_id(
                        active_jobs(old(self).downloads.active@),
                        id,
                    )
                    &&& refresh_local == result is Ok
                    &&& final(self).message is Some
                    &&& match result {
                        Ok(_) => final(self).message->0@ == "Downloaded "@ + file_name@ + " ✓"@,
                        Err(e) => final(self).message->0@ == "Download error for "@ + file_name@
                            + ": "@ + e@,
                    }
                },
                DownloadEvent::Progress(p) => {
                    &&& final(self).download_progress == Some(p)
                    &&& final(self).downloads.active@ == old(self).downloads.active@
                    &&& final(self).message == old(self).message
                    &&& !refresh_local
                },
            },
    {
        match ev {
            DownloadEvent::Completed { id, file_name, local_path: _, result } => {
                self.download_progress = None;
                self.downloads.complete(id);
                match result {
                    Ok(()) => {
                        let mut m = String::from_str("Downloaded ");
                        m.append(file_name.as_str());
                        m.append(" ✓");
                        self.message = Some(m);
                        true
                    },
                    Err(e) => {
                        let mut m = String::from_str("Download error for ");
                        m.append(file_name.as_str());
                        m.append(": ");
                        m.append(e.as_str());
                        self.message = Some(m);
                        false
                    },
                }
            },
            DownloadEvent::Progress(p) => {
                self.download_progress = Some(p);
                false
            },
        }
    }

    /// Takes in one event of an upload worker. Returns whether the remote listing must
    /// be read again (an upload ended, in success or not).
    pub fn apply_upload_event(&mut self, ev: UploadEvent) -> (refresh_remote: bool)
        ensures
            final(self).downloads == old(self).downloads,
            final(self).download_progress == old(self).download_progress,
            match ev {
                UploadEvent::Completed { file_name, result } => {
                    &&& final(self).upload_progress is None
                    &&& final(self).message is Some
                    &&& match result {
                        Ok(_) => final(self).message->0@ == "Upload completed ✓"@,
                        Err(e) => final(self).message->0@ == "Upload error for "@ + file_name@
                            + ": "@ + e@,
                    }
                    &&& refresh_remote
                },
                UploadEvent::Progress(p) => {
                    &&& final(self).upload_progress == Some(p)
                    &&& final(self).message == old(self).message
                    &&& !refresh_remote
                },
            },
    {
        match ev {
            UploadEvent::Completed { file_name, result } => {
                self.upload_progress = None;
                match result {
                    Ok(()) => {
                        self.message = Some(String::from_str("Upload completed ✓"));
                    },
                    Err(e) => {
                        let mut m = String::from_str("Upload error for ");
                        m.append(file_name.as_str());
                        m.append(": ");
                        m.append(e.as_str());
                        self.message = Some(m);
                    },
                }
                true
            },
            UploadEvent::Progress(p) => {
                self.upload_progress = Some(p);
                false
            },
        }
    }
}

/// `c * 100`, or the largest `u64` where that overflows.
pub open spec fn times_100_saturated(c: u64) -> int {
    if c * 100 > u64::MAX {
        u64::MAX as int
    } else {
        c * 100
    }
}

/// The percentage shown for `done` of `total` bytes, `done` first clamped to `total`.
pub open spec fn percent_of(done: u64, total: u64) -> int
    recommends
        total > 0,
{
    let c = if done <= total {
        done
    } else {
        total
    };
    times_100_saturated(c) / (total as int)
}

/// The percentage of `total` that `done` stands for, whole and between 0 and 100 even
/// when `done` exceeds `total`.
pub fn progress_percent(done: u64, total: u64) -> (r: u64)
    requires
        total > 0,
    ensures
        r == percent_of(done, total),
        r <= 100,
{
    let current = if done <= total {
        done
    } else {
        total
    };
    let scaled = if current <= u64::MAX / 100 {
        current * 100
    } else {
        u64::MAX
    };
    assert(scaled == times_100_saturated(current)) by (nonlinear_arith)
        requires
            current <= u64::MAX / 100 ==> scaled == current * 100,
            current > u64::MAX / 100 ==> scaled == u64::MAX,
            u64::MAX / 100 == 184467440737095516,
    ;
    let r = scaled / total;
    proof {
        lemma_percent_at_most_100(current, total);
    }
    r
}

proof fn lemma_percent_at_most_100(c: u64, total: u64)
    requires
        0 < total,
        c <= total,
    ensures
        times_100_saturated(c) / (total as int) <= 100,
{
    let t = total as int;
    let s = times_100_saturated(c);
    assert(s <= 100 * t) by (nonlinear_arith)
        requires
            s <= c * 100 || s == u64::MAX,
            s <= u64::MAX,
            c * 100 > u64::MAX ==> s == u64::MAX,
            c * 100 <= u64::MAX ==> s == c * 100,
            c <= t,
    ;
    assert(s / t <= 100) by (nonlinear_arith)
        requires
            s <= 100 * t,
            t > 0,
            s >= 0,
    ;
}

/// The cells of a bar `width` wide that `pct` percent fills, and those left empty.
pub open spec fn bar_split(pct: u64, width: usize) -> (usize, usize) {
    let f = (pct * width) / 100;
    let filled = if f <= width {
        f
    } else {
        width as int
    };
    (filled as usize, (width - filled) as usize)
}

pub open spec fn repeated(c: Seq<char>, n: nat) -> Seq<char>
    decreases n,
{
    if n == 0 {
        Seq::empty()
    } else {
        repeated(c, (n - 1) as nat) + c
    }
}

/// `pct%` followed by a bar of `width` cells.
pub open spec fn bar_text(pct: u64, width: usize) -> Seq<char> {
    let (filled, empty) = bar_split(pct, width);
    decimal(pct as nat) + "% "@ + repeated("▓"@, filled as nat) + repeated("░"@, empty as nat)
}

fn repeat_str(s: &str, n: usize, out: &mut String)
    ensures
        final(out)@ == old(out)@ + repeated(s@, n as nat),
{
    let mut i: usize = 0;
    while i < n
        invariant
            i <= n,
            out@ == old(out)@ + repeated(s@, i as nat),
        decreases n - i,
    {
        out.append(s);
        i = i + 1;
        assert(out@ =~= old(out)@ + repeated(s@, i as nat));
    }
}

/// The text of a progress bar `width` cells wide at `pct` percent.
pub fn render_bar(pct: u64, width: usize) -> (r: String)
    requires
        pct <= 100,
        width <= 65535,
    ensures
        r@ == bar_text(pct, width),
{
    assert((pct as usize) * width <= 100 * 65535) by (nonlinear_arith)
        requires
            pct <= 100,
            width <= 65535,
    ;
    let f = (pct as usize) * width / 100;
    let filled = if f <= width {
        f
    } else {
        width
    };
    let empty = width - filled;
    let mut r = decimal_string(pct);
    r.append("% ");
    repeat_str("▓", filled, &mut r);
    repeat_str("░", empty, &mut r);
    r
}

/// The line that shows where a transfer of several files stands.
pub open spec fn aggregate_line(p: ProgressState, width: usize) -> Seq<char> {
    let total = if p.total_bytes > 0 {
        p.total_bytes
    } else {
        1
    };
    p.label@ + " — "@ + bar_text(percent_of(p.done_bytes, total) as u64, width) + " ("@
        + decimal(p.files_done as nat) + "/"@ + decimal(p.files_total as nat) + ")"@
}

/// The footer line for the transfers: the most recently started single-file download
/// if one is running, else the last folder download progress, else the last upload
/// progress, else nothing.
pub open spec fn status_text(s: TransferState, width: usize) -> Seq<char> {
    let active = s.downloads.active@;
    if active.len() > 0 {
        let d = active.last();
        let queued = s.downloads.pending@.len();
        let q = if queued > 0 {
            " ("@ + decimal(queued as nat) + " queued)"@
        } else {
            Seq::empty()
        };
        match d.job.total_size {
            Some(t) if t > 0 => "Downloading "@ + d.job.file_name@ + " "@ + bar_text(
                percent_of(d.current_size, t) as u64,
                width,
            ) + q,
            _ => "Downloading "@ + d.job.file_name@ + q,
        }
    } else if s.download_progress is Some {
        aggregate_line(s.download_progress->0, width)
    } else if s.upload_progress is Some {
        aggregate_line(s.upload_progress->0, width)
    } else {
        Seq::empty()
    }
}

fn render_aggregate(p: &ProgressState, width: usize) -> (r: String)
    requires
        width <= 65535,
    ensures
        r@ == aggregate_line(*p, width),
{
    let total = if p.total_bytes > 0 {
        p.total_bytes
    } else {
        1
    };
    let pct = progress_percent(p.done_bytes, total);
    let mut r = p.label.clone();
    r.append(" — ");
    let bar = render_bar(pct, width);
    r.append(bar.as_str());
    r.append(" (");
    let a = decimal_string(p.files_done as u64);
    r.append(a.as_str());
    r.append("/");
    let b = decimal_string(p.files_total as u64);
    r.append(b.as_str());
    r.append(")");
    r
}

impl TransferState {
    /// The footer line that shows the transfers, with bars `width` cells wide.
    pub fn status_line(&self, width: usize) -> (r: String)
        requires
            width <= 65535,
        ensures
            r@ == status_text(*self, width),
    {
        let n = self.downloads.active.len();
        if n > 0 {
            let d = &self.downloads.active[n - 1];
            let queued = self.downloads.pending.len();
            let mut q = String::new();
            if queued > 0 {
                q.append(" (");
                let k = decimal_string(queued as u64);
                q.append(k.as_str());
                q.append(" queued)");
            }
            let mut r = String::from_str("Downloading ");
            r.append(d.job.file_name.as_str());
            match d.job.total_size {
                Some(t) => {
                    if t > 0 {
                        let pct = progress_percent(d.current_size, t);
                        r.append(" ");
                        let bar = render_bar(pct, width);
                        r.append(bar.as_str());
                    }
                },
                None => {},
            }
            r.append(q.as_str());
            r
        } else {
            match &self.download_progress {
                Some(p) => render_aggregate(p, width),
                None => match &self.upload_progress {
                    Some(p) => render_aggregate(p, width),
                    None => String::new(),
                },
            }
        }
    }
}

/// The percentage shown lies between 0 and 100 whatever the counts, a byte count above
/// the total included.
pub proof fn lemma_percent_clamped(done: u64, total: u64)
    requires
        total > 0,
    ensures
        0 <= percent_of(done, total) <= 100,
{
    let c = if done <= total {
        done
    } else {
        total
    };
    lemma_percent_at_most_100(c, total);
}

} // verus!
