use sshm::browser::{home_dir_of, initial_remote_dir, Action, Browser, Key, Mode, PanelFocus};
use sshm::folder::{local_target_path, FolderScan, FolderTransfer, RemoteFile};
use sshm::listing::{
    add_parent_entry, filter_entries, parse_remote_listing, parse_size_output, sort_entries, FileEntry,
};
use sshm::paths::{
    decimal_string, join_local_path, join_remote_path, parent_remote_path, shell_escape,
    unique_local_path, unique_name,
};
use sshm::progress::{progress_percent, render_bar, DownloadEvent, ProgressState, TransferState, UploadEvent};
use sshm::transfer::{DownloadManager, MAX_PARALLEL_DOWNLOADS};
use sshm::upload::{UploadFile, UploadJob, UploadStep};

fn names(v: &[FileEntry]) -> Vec<(String, bool)> {
    v.iter().map(|e| (e.name.clone(), e.is_dir)).collect()
}

fn owned(v: &[&str]) -> Vec<String> {
    v.iter().map(|s| s.to_string()).collect()
}

#[test]
fn remote_path_join_and_parent() {
    assert_eq!(join_remote_path("/", "etc"), "/etc");
    assert_eq!(parent_remote_path("/etc/ssh"), "/etc");
    assert_eq!(parent_remote_path("/"), "/");
}

#[test]
fn remote_path_edge_cases() {
    assert_eq!(join_remote_path("/home/u/", "x"), "/home/u/x");
    assert_eq!(join_remote_path("/home/u", "x"), "/home/u/x");
    assert_eq!(join_remote_path("", "x"), "/x");
    assert_eq!(parent_remote_path("/etc"), "/");
    assert_eq!(parent_remote_path("etc"), "/");
    assert_eq!(parent_remote_path("/a/b/"), "/a");
    assert_eq!(parent_remote_path("/a//b"), "/a");
    assert_eq!(parent_remote_path("a/b"), "a");
    assert_eq!(join_local_path("", "f"), "f");
    assert_eq!(join_local_path("/tmp", "f"), "/tmp/f");
}

#[test]
fn shell_escape_quotes() {
    assert_eq!(shell_escape("/tmp/a b"), "'/tmp/a b'");
    assert_eq!(shell_escape("it's"), "'it'\\''s'");
    assert_eq!(shell_escape(""), "''");
}

#[test]
fn decimal_strings() {
    assert_eq!(decimal_string(0), "0");
    assert_eq!(decimal_string(7), "7");
    assert_eq!(decimal_string(1234), "1234");
    assert_eq!(decimal_string(u64::MAX), "18446744073709551615");
}

#[test]
fn unique_path_skips_two_taken_names() {
    let taken = owned(&["photo.png", "photo (1).png"]);
    assert_eq!(unique_local_path("dir", "photo.png", &taken), "dir/photo (2).png");
}

#[test]
fn unique_path_third_variant() {
    let taken = owned(&["notes.txt", "notes (1).txt", "notes (2).txt", "other"]);
    assert_eq!(unique_local_path("/home/u", "notes.txt", &taken), "/home/u/notes (3).txt");
}

#[test]
fn unique_path_free_and_multi_suffix() {
    assert_eq!(unique_local_path("/d/", "a.txt", &owned(&["b.txt"])), "/d/a.txt");
    assert_eq!(unique_name("archive.tar.gz", &owned(&["archive.tar.gz"])), "archive (1).tar.gz");
    assert_eq!(unique_name("README", &owned(&["README"])), "README (1)");
    assert_eq!(unique_name(".bashrc", &owned(&[".bashrc"])), " (1).bashrc");
    assert_eq!(unique_name("x", &Vec::new()), "x");
}

#[test]
fn sort_puts_directories_first_case_insensitive() {
    let v = vec![
        FileEntry::new("zeta.txt", false),
        FileEntry::new("Beta", true),
        FileEntry::new("alpha.txt", false),
        FileEntry::new("alpha", true),
        FileEntry::new("Gamma.txt", false),
    ];
    let s = sort_entries(v);
    assert_eq!(
        names(&s),
        vec![
            ("alpha".to_string(), true),
            ("Beta".to_string(), true),
            ("alpha.txt".to_string(), false),
            ("Gamma.txt".to_string(), false),
            ("zeta.txt".to_string(), false),
        ]
    );
}

#[test]
fn sort_empty_listing() {
    assert!(sort_entries(Vec::new()).is_empty());
}

#[test]
fn remote_listing_failure_is_empty() {
    assert!(parse_remote_listing(false, "etc/\nfile\n").is_empty());
}

#[test]
fn remote_listing_parses_and_sorts() {
    let out = "b.txt\nA/\n\n  c/ \nZ\r\nlogs//\n";
    let s = parse_remote_listing(true, out);
    assert_eq!(
        names(&s),
        vec![
            ("A".to_string(), true),
            ("c".to_string(), true),
            ("logs".to_string(), true),
            ("b.txt".to_string(), false),
            ("Z".to_string(), false),
        ]
    );
    assert!(parse_remote_listing(true, "").is_empty());
}

#[test]
fn filter_and_parent_entry() {
    let v = vec![
        FileEntry::new("My_Docs", true),
        FileEntry::new("photo.png", false),
        FileEntry::new("docker.yml", false),
    ];
    let f = filter_entries(&v, "DOC");
    assert_eq!(names(&f), vec![("My_Docs".to_string(), true), ("docker.yml".to_string(), false)]);
    assert_eq!(filter_entries(&v, "").len(), 3);
    let mut f2 = f;
    add_parent_entry(&mut f2, true);
    assert_eq!(f2[0].name, "..");
    assert!(f2[0].is_dir);
    assert_eq!(f2.len(), 3);
    let mut f3 = Vec::new();
    add_parent_entry(&mut f3, false);
    assert!(f3.is_empty());
}

#[test]
fn pool_runs_three_of_five() {
    let mut m = DownloadManager::new();
    for i in 0..5u64 {
        let id = m.enqueue(format!("f{}", i), format!("/r/f{}", i), format!("/l/f{}", i), Some(10));
        assert_eq!(id, i + 1);
    }
    let started = m.start_ready();
    assert_eq!(started.iter().map(|j| j.id).collect::<Vec<_>>(), vec![1, 2, 3]);
    assert_eq!(m.active_count(), MAX_PARALLEL_DOWNLOADS);
    assert_eq!(m.queued_count(), 2);

    m.complete(2);
    assert_eq!(m.active_count(), 2);
    let started = m.start_ready();
    assert_eq!(started.iter().map(|j| j.id).collect::<Vec<_>>(), vec![4]);
    assert_eq!(m.active_count(), 3);
    assert_eq!(m.queued_count(), 1);

    for id in [1u64, 3, 4] {
        m.complete(id);
        let _ = m.start_ready();
        assert!(m.active_count() <= MAX_PARALLEL_DOWNLOADS);
    }
    assert_eq!(m.queued_count(), 0);
    assert_eq!(m.active.iter().map(|a| a.job.id).collect::<Vec<_>>(), vec![5]);
    m.complete(5);
    assert_eq!(m.active_count(), 0);
    assert!(m.start_ready().is_empty());
}

#[test]
fn pool_tracks_sizes() {
    let mut m = DownloadManager::new();
    m.enqueue("a".to_string(), "/r/a".to_string(), "/l/a".to_string(), None);
    m.enqueue("b".to_string(), "/r/b".to_string(), "/l/b".to_string(), Some(4));
    m.start_ready();
    m.set_current_size(2, 3);
    assert_eq!(m.active[0].current_size, 0);
    assert_eq!(m.active[1].current_size, 3);
    m.complete(99);
    assert_eq!(m.active_count(), 2);
}

#[test]
fn folder_progress_after_first_file() {
    let files = vec![
        RemoteFile { path: "/srv/d/a".to_string(), size: 10 },
        RemoteFile { path: "/srv/d/sub/b".to_string(), size: 20 },
        RemoteFile { path: "/srv/d/c".to_string(), size: 30 },
    ];
    let (mut t, first) = FolderTransfer::start(
        "Folder: d".to_string(),
        "/srv/d".to_string(),
        "/home/u/d".to_string(),
        files,
    );
    match first {
        DownloadEvent::Progress(p) => {
            assert_eq!((p.files_done, p.files_total, p.done_bytes, p.total_bytes), (0, 3, 0, 60));
        }
        _ => panic!("expected progress"),
    }
    let (remote, local) = t.next_transfer().unwrap();
    assert_eq!(remote, "/srv/d/a");
    assert_eq!(local, "/home/u/d/a");
    match t.file_succeeded() {
        DownloadEvent::Progress(p) => {
            assert_eq!(p.label, "Folder: d");
            assert_eq!((p.files_done, p.files_total, p.done_bytes, p.total_bytes), (1, 3, 10, 60));
        }
        _ => panic!("expected progress"),
    }
    let (_, local) = t.next_transfer().unwrap();
    assert_eq!(local, "/home/u/d/sub/b");
    t.file_succeeded();
    t.file_succeeded();
    assert!(t.next_transfer().is_none());
    match t.finish() {
        DownloadEvent::Completed { id, file_name, local_path, result } => {
            assert_eq!(id, 0);
            assert_eq!(file_name, "Folder: d");
            assert_eq!(local_path, "/home/u/d");
            assert!(result.is_ok());
        }
        _ => panic!("expected completion"),
    }
    assert!(t.next_transfer().is_none());
}

#[test]
fn folder_failure_ends_job() {
    let files = vec![RemoteFile { path: "/x/a".to_string(), size: 5 }];
    let (mut t, _) = FolderTransfer::start("Folder: x".to_string(), "/x".to_string(), "/l".to_string(), files);
    match t.fail("scp failed".to_string()) {
        DownloadEvent::Completed { result, .. } => assert_eq!(result, Err("scp failed".to_string())),
        _ => panic!("expected completion"),
    }
    assert!(t.finished);
    assert!(t.next_transfer().is_none());
}

#[test]
fn folder_scan_walks_listing() {
    let mut scan = FolderScan::new("/r");
    assert_eq!(scan.next_dir(), Some("/r".to_string()));
    let listing = vec![
        FileEntry::new("..", true),
        FileEntry::new("sub", true),
        FileEntry::new("a.txt", false),
    ];
    let probe = scan.add_listing("/r", &listing);
    assert_eq!(probe, vec!["/r/a.txt".to_string()]);
    assert_eq!(scan.dirs, vec!["/r/sub".to_string()]);
    scan.add_file("/r/a.txt".to_string(), None);
    scan.add_file("/r/b.txt".to_string(), Some(7));
    assert_eq!(scan.files[0].size, 0);
    assert_eq!(scan.files[1].size, 7);
    assert_eq!(scan.next_dir(), Some("/r/sub".to_string()));
    assert_eq!(scan.next_dir(), None);
}

#[test]
fn local_targets() {
    assert_eq!(local_target_path("/srv/data", "/srv/data/a/b.txt", "/home/u/data"), "/home/u/data/a/b.txt");
    assert_eq!(local_target_path("/", "/etc/x", "/l"), "/l/etc/x");
    assert_eq!(local_target_path("/srv/data", "/other/f.txt", "/l"), "/l/f.txt");
}

#[test]
fn percentage_is_clamped() {
    assert_eq!(progress_percent(150, 100), 100);
    assert_eq!(progress_percent(50, 200), 25);
    assert_eq!(progress_percent(0, 7), 0);
    assert_eq!(progress_percent(u64::MAX, 3), 100);
}

#[test]
fn bar_rendering() {
    assert_eq!(render_bar(50, 10), "50% ▓▓▓▓▓░░░░░");
    assert_eq!(render_bar(100, 3), "100% ▓▓▓");
    assert_eq!(render_bar(0, 0), "0% ");
}

#[test]
fn aggregator_applies_events() {
    let mut s = TransferState::new();
    s.downloads.enqueue("a.bin".to_string(), "/r/a.bin".to_string(), "/l/a.bin".to_string(), Some(200));
    s.downloads.enqueue("b.bin".to_string(), "/r/b.bin".to_string(), "/l/b.bin".to_string(), None);
    s.downloads.start_ready();
    s.downloads.set_current_size(1, 300);
    assert_eq!(s.status_line(4), "Downloading b.bin");
    s.downloads.complete(2);
    assert_eq!(s.status_line(4), "Downloading a.bin 100% ▓▓▓▓");

    let refresh = s.apply_download_event(DownloadEvent::Completed {
        id: 1,
        file_name: "a.bin".to_string(),
        local_path: "/l/a.bin".to_string(),
        result: Ok(()),
    });
    assert!(refresh);
    assert_eq!(s.message.as_deref(), Some("Downloaded a.bin ✓"));
    assert_eq!(s.downloads.active_count(), 0);
    assert_eq!(s.status_line(4), "");

    let refresh = s.apply_download_event(DownloadEvent::Completed {
        id: 0,
        file_name: "Folder: d".to_string(),
        local_path: "/l/d".to_string(),
        result: Err("boom".to_string()),
    });
    assert!(!refresh);
    assert_eq!(s.message.as_deref(), Some("Download error for Folder: d: boom"));

    s.apply_download_event(DownloadEvent::Progress(ProgressState {
        label: "Folder: d".to_string(),
        files_done: 1,
        files_total: 3,
        done_bytes: 90,
        total_bytes: 60,
    }));
    assert_eq!(s.status_line(2), "Folder: d — 100% ▓▓ (1/3)");

    s.apply_download_event(DownloadEvent::Completed {
        id: 0,
        file_name: "Folder: d".to_string(),
        local_path: "/l/d".to_string(),
        result: Ok(()),
    });
    s.apply_upload_event(UploadEvent::Progress(ProgressState {
        label: "File: u".to_string(),
        files_done: 1,
        files_total: 1,
        done_bytes: 0,
        total_bytes: 0,
    }));
    assert_eq!(s.status_line(2), "File: u — 0% ░░ (1/1)");
    assert!(s.apply_upload_event(UploadEvent::Completed { file_name: "u".to_string(), result: Ok(()) }));
    assert_eq!(s.message.as_deref(), Some("Upload completed ✓"));
    assert!(s.upload_progress.is_none());
    assert!(s.apply_upload_event(UploadEvent::Completed {
        file_name: "d".to_string(),
        result: Err("mkdir failed".to_string()),
    }));
    assert_eq!(s.message.as_deref(), Some("Upload error for d: mkdir failed"));
}

#[test]
fn queued_count_in_status() {
    let mut s = TransferState::new();
    for i in 0..4 {
        s.downloads.enqueue(format!("f{}", i), String::new(), String::new(), None);
    }
    s.downloads.start_ready();
    assert_eq!(s.status_line(10), "Downloading f2 (1 queued)");
}

fn browser_with_remote() -> Browser {
    let mut b = Browser::new("/home/u".to_string(), "/srv".to_string());
    let listing = sort_entries(vec![
        FileEntry::new("data", true),
        FileEntry::new("notes.txt", false),
        FileEntry::new("Docs", true),
    ]);
    b.on_remote_listing("/srv".to_string(), Ok(listing));
    b
}

#[test]
fn filter_then_escape_restores_listing() {
    let mut b = browser_with_remote();
    assert_eq!(b.remote.entries.len(), 4);
    assert!(matches!(b.handle_key(Key::Char('/')), Action::Nothing));
    assert!(b.mode == Mode::Filter);
    b.handle_key(Key::Char('d'));
    b.handle_key(Key::Char('o'));
    b.handle_key(Key::Char('c'));
    assert_eq!(names(&b.remote.entries), vec![("..".to_string(), true), ("Docs".to_string(), true)]);
    b.handle_key(Key::Down);
    assert_eq!(b.remote.selected, 1);
    assert!(matches!(b.handle_key(Key::Esc), Action::Nothing));
    assert!(b.mode == Mode::Normal);
    assert!(b.filter.is_empty());
    assert_eq!(
        names(&b.remote.entries),
        vec![
            ("..".to_string(), true),
            ("data".to_string(), true),
            ("Docs".to_string(), true),
            ("notes.txt".to_string(), false),
        ]
    );
    assert_eq!(b.remote.selected, 0);
}

#[test]
fn filter_backspace_and_quit_key() {
    let mut b = browser_with_remote();
    b.handle_key(Key::Char('/'));
    b.handle_key(Key::Char('q'));
    assert_eq!(b.filter, "q");
    assert_eq!(b.remote.entries.len(), 1);
    b.handle_key(Key::Backspace);
    assert_eq!(b.filter, "");
    assert_eq!(b.remote.entries.len(), 4);
    b.handle_key(Key::Esc);
    assert!(matches!(b.handle_key(Key::Char('q')), Action::Quit));
    assert!(matches!(b.handle_key(Key::Esc), Action::Quit));
}

#[test]
fn enter_and_backspace_navigate() {
    let mut b = browser_with_remote();
    b.handle_key(Key::Down);
    match b.handle_key(Key::Enter) {
        Action::ListRemote { path } => assert_eq!(path, "/srv/data"),
        _ => panic!("expected a remote listing"),
    }
    b.on_remote_listing("/srv/data".to_string(), Ok(Vec::new()));
    assert_eq!(b.remote.cwd, "/srv/data");
    assert_eq!(names(&b.remote.entries), vec![("..".to_string(), true)]);
    match b.handle_key(Key::Enter) {
        Action::ListRemote { path } => assert_eq!(path, "/srv"),
        _ => panic!("expected a remote listing"),
    }
    match b.handle_key(Key::Backspace) {
        Action::ListRemote { path } => assert_eq!(path, "/srv"),
        _ => panic!("expected a remote listing"),
    }
    b.on_remote_listing("/".to_string(), Err("ssh missing".to_string()));
    assert_eq!(b.message.as_deref(), Some("Remote read error: ssh missing"));
    assert_eq!(b.remote.cwd, "/srv/data");
    b.on_remote_listing("/".to_string(), Ok(Vec::new()));
    assert!(b.remote.entries.is_empty());
    assert!(!b.remote.has_parent);
}

#[test]
fn transfer_keys() {
    let mut b = browser_with_remote();
    b.handle_key(Key::Down);
    b.handle_key(Key::Down);
    b.handle_key(Key::Down);
    match b.handle_key(Key::Char('d')) {
        Action::DownloadFile { remote_path, file_name } => {
            assert_eq!(remote_path, "/srv/notes.txt");
            assert_eq!(file_name, "notes.txt");
        }
        _ => panic!("expected a download"),
    }
    assert_eq!(b.message.as_deref(), Some("Queued download"));
    b.handle_key(Key::Up);
    match b.handle_key(Key::Char('d')) {
        Action::DownloadFolder { remote_root, folder_name } => {
            assert_eq!(remote_root, "/srv/Docs");
            assert_eq!(folder_name, "Docs");
        }
        _ => panic!("expected a folder download"),
    }
    assert!(matches!(b.handle_key(Key::Char('u')), Action::Nothing));
    b.handle_key(Key::Tab);
    assert!(b.focus == PanelFocus::Local);
    b.on_local_listing("/home/u".to_string(), Ok(vec![FileEntry::new("up.txt", false)]));
    b.handle_key(Key::Down);
    match b.handle_key(Key::Char('u')) {
        Action::Upload { local_path, remote_target, name, is_dir } => {
            assert_eq!(local_path, "/home/u/up.txt");
            assert_eq!(remote_target, "/srv/up.txt");
            assert_eq!(name, "up.txt");
            assert!(!is_dir);
        }
        _ => panic!("expected an upload"),
    }
    assert_eq!(b.message.as_deref(), Some("Uploading 'up.txt' in background…"));
    b.on_local_listing("/nope".to_string(), Err("denied".to_string()));
    assert_eq!(b.message.as_deref(), Some("Local read error: denied"));
}

#[test]
fn size_probe_output() {
    assert_eq!(parse_size_output(true, "1234\n"), Some(1234));
    assert_eq!(parse_size_output(true, "stat: bad option\n  +42 \n7\n"), Some(42));
    assert_eq!(parse_size_output(true, "18446744073709551616\n5"), Some(5));
    assert_eq!(parse_size_output(true, "18446744073709551615"), Some(u64::MAX));
    assert_eq!(parse_size_output(true, "\n\nabc\n-3\n"), None);
    assert_eq!(parse_size_output(false, "1234\n"), None);
}

fn upload_file(local: &str, remote: &str, size: u64) -> UploadFile {
    UploadFile { local_path: local.to_string(), remote_path: remote.to_string(), size }
}

#[test]
fn folder_upload_steps() {
    let files = vec![upload_file("/l/d/a", "/r/d/a", 4), upload_file("/l/d/s/b", "/r/d/s/b", 6)];
    let mut job = UploadJob::for_folder("d".to_string(), "/r/d".to_string(), files);
    assert!(matches!(job.next_step(), Some(UploadStep::MakeDir(d)) if d == "/r/d"));
    assert!(job.dir_made(Ok(())).is_none());
    assert!(matches!(job.next_step(), Some(UploadStep::MakeDir(d)) if d == "/r/d"));
    assert!(job.dir_made(Ok(())).is_none());
    match job.next_step() {
        Some(UploadStep::Send { local_path, remote_path }) => {
            assert_eq!(local_path, "/l/d/a");
            assert_eq!(remote_path, "/r/d/a");
        }
        _ => panic!("expected a send"),
    }
    match job.file_sent(Ok(())) {
        UploadEvent::Progress(p) => {
            assert_eq!(p.label, "Folder: d");
            assert_eq!((p.files_done, p.files_total, p.done_bytes, p.total_bytes), (1, 2, 4, 10));
        }
        _ => panic!("expected progress"),
    }
    assert!(matches!(job.next_step(), Some(UploadStep::MakeDir(d)) if d == "/r/d/s"));
    match job.dir_made(Err("denied".to_string())) {
        Some(UploadEvent::Completed { file_name, result }) => {
            assert_eq!(file_name, "d");
            assert_eq!(result, Err("denied".to_string()));
        }
        _ => panic!("expected completion"),
    }
    assert!(job.next_step().is_none());
}

#[test]
fn single_file_upload_steps() {
    let mut job = UploadJob::for_file("f.txt".to_string(), "/l/f.txt".to_string(), "/r/f.txt".to_string(), 9);
    assert!(matches!(job.next_step(), Some(UploadStep::Send { .. })));
    match job.file_sent(Ok(())) {
        UploadEvent::Progress(p) => {
            assert_eq!(p.label, "File: f.txt");
            assert_eq!((p.files_done, p.files_total, p.done_bytes, p.total_bytes), (1, 1, 9, 9));
        }
        _ => panic!("expected progress"),
    }
    assert!(matches!(job.next_step(), Some(UploadStep::Done)));
    assert!(matches!(job.finish(), UploadEvent::Completed { result: Ok(()), .. }));
    assert!(job.next_step().is_none());
    let mut failing = UploadJob::for_file("g".to_string(), "/l/g".to_string(), "/r/g".to_string(), 1);
    assert!(matches!(failing.file_sent(Err("scp".to_string())), UploadEvent::Completed { result: Err(_), .. }));
    assert!(failing.next_step().is_none());
}

#[test]
fn remote_start_directory() {
    assert_eq!(home_dir_of("alice"), "/home/alice");
    assert_eq!(initial_remote_dir("alice", &vec![FileEntry::new(".bashrc", false)]), "/home/alice");
    assert_eq!(initial_remote_dir("alice", &Vec::new()), "/");
}
