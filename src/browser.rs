use vstd::prelude::*;
use crate::listing::{
    add_parent_entry, filter_entries, filtered, views, with_parent_entry, EntryView, FileEntry,
};
use crate::paths::{
    join_local_path, join_remote_path, joined_local, joined_remote, parent_of, parent_remote_path,
};
use crate::text::push_char;

verus! {

/// Which of the two panels takes the keys.
#[derive(Clone, Copy, PartialEq, Eq, Structural)]
pub enum PanelFocus {
    Local,
    Remote,
}

/// `Normal`: keys navigate and start transfers. `Filter`: typed text narrows the
/// focused panel's listing.
#[derive(Clone, Copy, PartialEq, Eq, Structural)]
pub enum Mode {
    Normal,
    Filter,
}

/// A key the browser reacts to.
pub enum Key {
    Char(char),
    Esc,
    Tab,
    Up,
    Down,
    Enter,
    Backspace,
    Other,
}

/// Work that the browser asks its caller to do.
pub enum Action {
    Nothing,
    Quit,
    /// List a local directory and hand the result to `on_local_listing`.
    ListLocal { path: String },
    /// List a remote directory and hand the result to `on_remote_listing`.
    ListRemote { path: String },
    /// Queue the download of one remote file into the local panel's directory.
    DownloadFile { remote_path: String, file_name: String },
    /// Start the download of a remote folder into the local panel's directory.
    DownloadFolder { remote_root: String, folder_name: String },
    /// Start the upload of a local file or folder into the remote panel's directory.
    Upload { local_path: String, remote_target: String, name: String, is_dir: bool },
}

/// One side of the browser: a directory, its listing, what is shown of it, and the
/// selected line.
pub struct PanelState {
    pub cwd: String,
    pub listing: Vec<FileEntry>,
    pub has_parent: bool,
    pub entries: Vec<FileEntry>,
    pub selected: usize,
}

impl PanelState {
    /// The selection lies on an entry, or at 0 when there is none.
    pub open spec fn wf(&self) -> bool {
        if self.entries@.len() == 0 {
            self.selected == 0
        } else {
            self.selected < self.entries@.len()
        }
    }

    pub fn new(cwd: String) -> (r: PanelState)
        ensures
            r.wf(),
            r.cwd@ == cwd@,
            r.listing@.len() == 0,
            r.entries@.len() == 0,
            !r.has_parent,
    {
        PanelState { cwd, listing: Vec::new(), has_parent: false, entries: Vec::new(), selected: 0 }
    }

    pub fn selected_entry(&self) -> (r: Option<&FileEntry>)
        ensures
            self.selected < self.entries@.len() ==> r == Some(&self.entries@[self.selected as int]),
            self.selected >= self.entries@.len() ==> r is None,
    {
        if self.selected < self.entries.len() {
            Some(&self.entries[self.selected])
        } else {
            None
        }
    }

    /// Shows `listing` as the contents of `cwd`, the `..` entry in front when the
    /// directory has a parent, and selects the first line.
    pub fn set_listing(&mut self, cwd: String, listing: Vec<FileEntry>, has_parent: bool)
        ensures
            final(self).wf(),
            final(self).cwd@ == cwd@,
            views(final(self).listing@) == views(listing@),
            final(self).has_parent == has_parent,
            views(final(self).entries@) == with_parent_entry(views(listing@), has_parent),
            final(self).selected == 0,
    {
        let mut entries = filter_entries(&listing, "");
        proof {
            reveal_strlit("");
            lemma_filter_empty(views(listing@), ""@);
        }
        add_parent_entry(&mut entries, has_parent);
        self.cwd = cwd;
        self.listing = listing;
        self.has_parent = has_parent;
        self.entries = entries;
        self.selected = 0;
    }

    /// Shows the entries of the listing whose names pass `filter`, and selects the
    /// first line.
    pub fn show_filtered(&mut self, filter: &str)
        ensures
            final(self).wf(),
            final(self).cwd == old(self).cwd,
            final(self).listing == old(self).listing,
            final(self).has_parent == old(self).has_parent,
            views(final(self).entries@) == with_parent_entry(
                filtered(views(old(self).listing@), filter@),
                old(self).has_parent,
            ),
            final(self).selected == 0,
    {
        let mut entries = filter_entries(&self.listing, filter);
        add_parent_entry(&mut entries, self.has_parent);
        self.entries = entries;
        self.selected = 0;
    }

    pub fn move_up(&mut self)
        requires
            old(self).wf(),
        ensures
            final(self).wf(),
            final(self).entries == old(self).entries,
            final(self).listing == old(self).listing,
            final(self).cwd == old(self).cwd,
            final(self).has_parent == old(self).has_parent,
            final(self).selected == if old(self).selected > 0 {
                old(self).selected - 1
            } else {
                0
            },
    {
        if self.selected > 0 {
            self.selected = self.selected - 1;
        }
    }

    pub fn move_down(&mut self)
        requires
            old(self).wf(),
        ensures
            final(self).wf(),
            final(self).entries == old(self).entries,
            final(self).listing == old(self).listing,
            final(self).cwd == old(self).cwd,
            final(self).has_parent == old(self).has_parent,
            final(self).selected == if old(self).entries@.len() == 0 {
                0
            } else if old(self).selected + 1 < old(self).entries@.len() {
                old(self).selected + 1
            } else {
                old(self).entries@.len() - 1
            },
    {
        let n = self.entries.len();
        if n > 0 {
            self.selected = if self.selected + 1 < n {
                self.selected + 1
            } else {
                n - 1
            };
        }
    }
}

proof fn lemma_filter_empty(s: Seq<EntryView>, f: Seq<char>)
    requires
        f.len() == 0,
    ensures
        filtered(s, f) == s,
    decreases s.len(),
{
    if s.len() > 0 {
        lemma_filter_empty(s.drop_last(), f);
        assert(s.drop_last().push(s.last()) =~= s);
    }
}

/// A local directory has a parent unless it is the root or the empty path.
pub open spec fn local_has_parent(path: Seq<char>) -> bool {
    path.len() > 0 && path != seq!['/']
}

/// A remote directory has a parent unless it is the root.
pub open spec fn remote_has_parent(path: Seq<char>) -> bool {
    path != seq!['/']
}

fn is_root(path: &str) -> (r: bool)
    ensures
        r == (path@ == seq!['/']),
{
    let r = path.unicode_len() == 1 && path.get_char(0) == '/';
    proof {
        if r {
            assert(path@ =~= seq!['/']);
        }
    }
    r
}

/// What `u` asks for on the browser `b`: the upload of the selected local entry into
/// the remote panel's directory, unless the local panel is not focused, nothing is
/// selected, or the selection is `..`.
pub open spec fn upload_request(b: Browser, action: Action) -> bool {
    let p = b.local;
    if b.focus == PanelFocus::Local && p.selected < p.entries@.len()
        && p.entries@[p.selected as int].name@ != seq!['.', '.'] {
        let e = p.entries@[p.selected as int];
        action matches Action::Upload { local_path, remote_target, name, is_dir }
            && local_path@ == joined_local(p.cwd@, e.name@) && remote_target@ == joined_remote(
            b.remote.cwd@,
            e.name@,
        ) && name@ == e.name@ && is_dir == e.is_dir
    } else {
        action is Nothing
    }
}

/// What `d` asks for on the browser `b`: the download of the selected remote file, or
/// of the selected remote folder whole, unless the remote panel is not focused or
/// nothing is selected.
pub open spec fn download_request(b: Browser, action: Action) -> bool {
    let p = b.remote;
    if b.focus == PanelFocus::Remote && p.selected < p.entries@.len() {
        let e = p.entries@[p.selected as int];
        if e.is_dir {
            action matches Action::DownloadFolder { remote_root, folder_name } && remote_root@
                == joined_remote(p.cwd@, e.name@) && folder_name@ == e.name@
        } else {
            action matches Action::DownloadFile { remote_path, file_name } && remote_path@
                == joined_remote(p.cwd@, e.name@) && file_name@ == e.name@
        }
    } else {
        action is Nothing
    }
}

/// The two panels, which one has the focus, the key mode and the filter text.
pub struct Browser {
    pub local: PanelState,
    pub remote: PanelState,
    pub focus: PanelFocus,
    pub mode: Mode,
    pub filter: String,
    pub message: Option<String>,
}

impl Browser {
    pub open spec fn wf(&self) -> bool {
        self.local.wf() && self.remote.wf()
    }

    pub open spec fn focused(&self) -> PanelState {
        match self.focus {
            PanelFocus::Local => self.local,
            PanelFocus::Remote => self.remote,
        }
    }

    /// A browser with both panels empty, in `Normal` mode with the remote panel focused;
    /// the caller lists `local_start` and `remote_start` next.
    pub fn new(local_start: String, remote_start: String) -> (r: Browser)
        ensures
            r.wf(),
            r.local.cwd@ == local_start@,
            r.remote.cwd@ == remote_start@,
            r.focus == PanelFocus::Remote,
            r.mode == Mode::Normal,
            r.filter@.len() == 0,
            r.message is None,
    {
        Browser {
            local: PanelState::new(local_start),
            remote: PanelState::new(remote_start),
            focus: PanelFocus::Remote,
            mode: Mode::Normal,
            filter: String::new(),
            message: None,
        }
    }

    /// Takes in the result of listing the local directory `path`: on success the local
    /// panel shows it; on failure the panel keeps its contents and the error is shown.
    pub fn on_local_listing(&mut self, path: String, result: Result<Vec<FileEntry>, String>)
        requires
            old(self).wf(),
        ensures
            final(self).wf(),
            final(self).remote == old(self).remote,
            final(self).focus == old(self).focus,
            match result {
                Ok(list) => {
                    &&& final(self).local.cwd@ == path@
                    &&& views(final(self).local.listing@) == views(list@)
                    &&& views(final(self).local.entries@) == with_parent_entry(
                        views(list@),
                        local_has_parent(path@),
                    )
                    &&& final(self).local.selected == 0
                    &&& final(self).message is None
                },
                Err(e) => {
                    &&& final(self).local == old(self).local
                    &&& final(self).message is Some
                    &&& final(self).message->0@ == "Local read error: "@ + e@
                },
            },
    {
        match result {
            Ok(list) => {
                let has_parent = path.unicode_len() > 0 && !is_root(path.as_str());
                self.local.set_listing(path, list, has_parent);
                self.message = None;
            },
            Err(e) => {
                let mut m = String::from_str("Local read error: ");
                m.append(e.as_str());
                self.message = Some(m);
            },
        }
    }

    /// Takes in the result of listing the remote directory `path`, as
    /// `on_local_listing` does for the local panel.
    pub fn on_remote_listing(&mut self, path: String, result: Result<Vec<FileEntry>, String>)
        requires
            old(self).wf(),
        ensures
            final(self).wf(),
            final(self).local == old(self).local,
            final(self).focus == old(self).focus,
            match result {
                Ok(list) => {
                    &&& final(self).remote.cwd@ == path@
                    &&& views(final(self).remote.listing@) == views(list@)
                    &&& views(final(self).remote.entries@) == with_parent_entry(
                        views(list@),
                        remote_has_parent(path@),
                    )
                    &&& final(self).remote.selected == 0
                    &&& final(self).message is None
                },
                Err(e) => {
                    &&& final(self).remote == old(self).remote
                    &&& final(self).message is Some
                    &&& final(self).message->0@ == "Remote read error: "@ + e@
                },
            },
    {
        match result {
            Ok(list) => {
                let has_parent = !is_root(path.as_str());
                self.remote.set_listing(path, list, has_parent);
                self.message = None;
            },
            Err(e) => {
                let mut m = String::from_str("Remote read error: ");
                m.append(e.as_str());
                self.message = Some(m);
            },
        }
    }

    fn refilter_focused(&mut self)
        requires
            old(self).wf(),
        ensures
            final(self).wf(),
            final(self).focus == old(self).focus,
            final(self).mode == old(self).mode,
            final(self).filter == old(self).filter,
            final(self).message == old(self).message,
            old(self).focus == PanelFocus::Local ==> final(self).remote == old(self).remote,
            old(self).focus == PanelFocus::Remote ==> final(self).local == old(self).local,
            final(self).focused().listing == old(self).focused().listing,
            final(self).focused().cwd == old(self).focused().cwd,
            final(self).focused().has_parent == old(self).focused().has_parent,
            views(final(self).focused().entries@) == with_parent_entry(
                filtered(views(old(self).focused().listing@), old(self).filter@),
                old(self).focused().has_parent,
            ),
            final(self).focused().selected == 0,
    {
        match self.focus {
            PanelFocus::Local => self.local.show_filtered(self.filter.as_str()),
            PanelFocus::Remote => self.remote.show_filtered(self.filter.as_str()),
        }
    }

    /// Reacts to one key press. In `Filter` mode typed characters and Backspace edit
    /// the filter and narrow the focused listing, and `Esc` restores the whole listing
    /// and returns to `Normal`; other keys act as in `Normal` mode.
    pub fn handle_key(&mut self, key: Key) -> (action: Action)
        requires
            old(self).wf(),
        ensures
            final(self).wf(),
            old(self).mode == Mode::Filter ==> match key {
                Key::Esc => {
                    &&& final(self).mode == Mode::Normal
                    &&& final(self).filter@.len() == 0
                    &&& final(self).focus == old(self).focus
                    &&& final(self).focused().listing == old(self).focused().listing
                    &&& views(final(self).focused().entries@) == with_parent_entry(
                        views(old(self).focused().listing@),
                        old(self).focused().has_parent,
                    )
                    &&& final(self).focused().selected == 0
                    &&& action is Nothing
                },
                Key::Char(c) => {
                    &&& final(self).mode == Mode::Filter
                    &&& final(self).filter@ == old(self).filter@.push(c)
                    &&& views(final(self).focused().entries@) == with_parent_entry(
                        filtered(views(old(self).focused().listing@), final(self).filter@),
                        old(self).focused().has_parent,
                    )
                    &&& final(self).focused().selected == 0
                    &&& action is Nothing
                },
                Key::Backspace => {
                    &&& final(self).mode == Mode::Filter
                    &&& old(self).filter@.len() > 0 ==> final(self).filter@
                        == old(self).filter@.drop_last()
                    &&& old(self).filter@.len() == 0 ==> final(self).filter@.len() == 0
                    &&& views(final(self).focused().entries@) == with_parent_entry(
                        filtered(views(old(self).focused().listing@), final(self).filter@),
                        old(self).focused().has_parent,
                    )
                    &&& final(self).focused().selected == 0
                    &&& action is Nothing
                },
                _ => true,
            },
            old(self).mode == Mode::Normal ==> match key {
                Key::Char(c) => {
                    &&& c == 'q' ==> action is Quit
                    &&& c == '/' ==> final(self).mode == Mode::Filter && final(self).filter@.len()
                        == 0 && final(self).message is None && action is Nothing
                    &&& c == 'u' ==> upload_request(*old(self), action)
                    &&& c == 'd' ==> download_request(*old(self), action)
                },
                Key::Esc => action is Quit,
                Key::Tab => {
                    &&& final(self).focus != old(self).focus
                    &&& action is Nothing
                },
                Key::Up => {
                    &&& final(self).focus == old(self).focus
                    &&& final(self).focused().selected == if old(self).focused().selected > 0 {
                        old(self).focused().selected - 1
                    } else {
                        0
                    }
                    &&& action is Nothing
                },
                Key::Down => {
                    &&& final(self).focus == old(self).focus
                    &&& final(self).focused().selected == if old(self).focused().entries@.len()
                        == 0 {
                        0
                    } else if old(self).focused().selected + 1 < old(
                        self,
                    ).focused().entries@.len() {
                        old(self).focused().selected + 1
                    } else {
                        old(self).focused().entries@.len() - 1
                    }
                    &&& action is Nothing
                },
                Key::Backspace => match old(self).focus {
                    PanelFocus::Local => if old(self).local.has_parent {
                        action matches Action::ListLocal { path } && path@ == parent_of(
                            old(self).local.cwd@,
                        )
                    } else {
                        action is Nothing
                    },
                    PanelFocus::Remote => action matches Action::ListRemote { path } && path@
                        == parent_of(old(self).remote.cwd@),
                },
                _ => true,
            },
            (old(self).mode == Mode::Normal || !(key is Esc || key is Char || key is Backspace))
                && key is Enter ==> final(self).mode == Mode::Normal && final(self).filter@.len()
                == 0 && ({
                let p = old(self).focused();
                if p.selected < p.entries@.len() {
                    let e = p.entries@[p.selected as int];
                    if e.name@ == seq!['.', '.'] {
                        match old(self).focus {
                            PanelFocus::Local => if p.has_parent {
                                action matches Action::ListLocal { path } && path@ == parent_of(
                                    p.cwd@,
                                )
                            } else {
                                action is Nothing
                            },
                            PanelFocus::Remote => action matches Action::ListRemote { path }
                                && path@ == parent_of(p.cwd@),
                        }
                    } else if e.is_dir {
                        match old(self).focus {
                            PanelFocus::Local => action matches Action::ListLocal { path }
                                && path@ == joined_local(p.cwd@, e.name@),
                            PanelFocus::Remote => action matches Action::ListRemote { path }
                                && path@ == joined_remote(p.cwd@, e.name@),
                        }
                    } else {
                        action is Nothing
                    }
                } else {
                    action is Nothing
                }
            }),
    {
        if self.mode == Mode::Filter {
            match key {
                Key::Esc => {
                    self.mode = Mode::Normal;
                    self.filter = String::new();
                    proof {
                        reveal_strlit("");
                    }
                    match self.focus {
                        PanelFocus::Local => self.local.show_filtered(""),
                        PanelFocus::Remote => self.remote.show_filtered(""),
                    }
                    proof {
                        lemma_filter_empty(views(self.focused().listing@), ""@);
                    }
                    return Action::Nothing;
                },
                Key::Char(c) => {
                    push_char(&mut self.filter, c);
                    self.refilter_focused();
                    return Action::Nothing;
                },
                Key::Backspace => {
                    let n = self.filter.as_str().unicode_len();
                    if n > 0 {
                        let shorter = String::from_str(self.filter.as_str().substring_char(0, n - 1));
                        self.filter = shorter;
                    }
                    self.refilter_focused();
                    return Action::Nothing;
                },
                _ => {},
            }
        }
        match key {
            Key::Char(c) => {
                if c == 'q' {
                    Action::Quit
                } else if c == '/' {
                    self.mode = Mode::Filter;
                    self.filter = String::new();
                    self.message = None;
                    Action::Nothing
                } else if c == 'u' {
                    self.upload_selected()
                } else if c == 'd' {
                    self.download_selected()
                } else {
                    Action::Nothing
                }
            },
            Key::Esc => {
                if self.mode == Mode::Normal {
                    Action::Quit
                } else {
                    Action::Nothing
                }
            },
            Key::Tab => {
                self.focus = match self.focus {
                    PanelFocus::Local => PanelFocus::Remote,
                    PanelFocus::Remote => PanelFocus::Local,
                };
                Action::Nothing
            },
            Key::Up => {
                match self.focus {
                    PanelFocus::Local => self.local.move_up(),
                    PanelFocus::Remote => self.remote.move_up(),
                }
                Action::Nothing
            },
            Key::Down => {
                match self.focus {
                    PanelFocus::Local => self.local.move_down(),
                    PanelFocus::Remote => self.remote.move_down(),
                }
                Action::Nothing
            },
            Key::Enter => {
                let action = self.open_selected();
                self.mode = Mode::Normal;
                self.filter = String::new();
                action
            },
            Key::Backspace => match self.focus {
                PanelFocus::Local => {
                    if self.local.has_parent {
                        Action::ListLocal { path: parent_remote_path(self.local.cwd.as_str()) }
                    } else {
                        Action::Nothing
                    }
                },
                PanelFocus::Remote => Action::ListRemote {
                    path: parent_remote_path(self.remote.cwd.as_str()),
                },
            },
            Key::Other => Action::Nothing,
        }
    }

    fn is_parent_name(name: &String) -> (r: bool)
        ensures
            r == (name@ == seq!['.', '.']),
    {
        proof {
            reveal_strlit("..");
        }
        let dots = String::from_str("..");
        assert(dots@ =~= seq!['.', '.']);
        *name == dots
    }

    fn open_selected(&self) -> (action: Action)
        ensures
            ({
                let p = self.focused();
                if p.selected < p.entries@.len() {
                    let e = p.entries@[p.selected as int];
                    if e.name@ == seq!['.', '.'] {
                        match self.focus {
                            PanelFocus::Local => if p.has_parent {
                                action matches Action::ListLocal { path } && path@ == parent_of(
                                    p.cwd@,
                                )
                            } else {
                                action is Nothing
                            },
                            PanelFocus::Remote => action matches Action::ListRemote { path }
                                && path@ == parent_of(p.cwd@),
                        }
                    } else if e.is_dir {
                        match self.focus {
                            PanelFocus::Local => action matches Action::ListLocal { path }
                                && path@ == joined_local(p.cwd@, e.name@),
                            PanelFocus::Remote => action matches Action::ListRemote { path }
                                && path@ == joined_remote(p.cwd@, e.name@),
                        }
                    } else {
                        action is Nothing
                    }
                } else {
                    action is Nothing
                }
            }),
    {
        match self.focus {
            PanelFocus::Local => match self.local.selected_entry() {
                Some(e) => {
                    if Self::is_parent_name(&e.name) {
                        if self.local.has_parent {
                            Action::ListLocal { path: parent_remote_path(self.local.cwd.as_str()) }
                        } else {
                            Action::Nothing
                        }
                    } else if e.is_dir {
                        Action::ListLocal {
                            path: join_local_path(self.local.cwd.as_str(), e.name.as_str()),
                        }
                    } else {
                        Action::Nothing
                    }
                },
                None => Action::Nothing,
            },
            PanelFocus::Remote => match self.remote.selected_entry() {
                Some(e) => {
                    if Self::is_parent_name(&e.name) {
                        Action::ListRemote { path: parent_remote_path(self.remote.cwd.as_str()) }
                    } else if e.is_dir {
                        Action::ListRemote {
                            path: join_remote_path(self.remote.cwd.as_str(), e.name.as_str()),
                        }
                    } else {
                        Action::Nothing
                    }
                },
                None => Action::Nothing,
            },
        }
    }

    /// `u` on the local panel: the selected entry, unless it is `..`, is to be uploaded
    /// into the remote panel's directory.
    fn upload_selected(&mut self) -> (action: Action)
        requires
            old(self).wf(),
        ensures
            final(self).wf(),
            upload_request(*old(self), action),
            final(self).local == old(self).local,
            final(self).remote == old(self).remote,
            final(self).focus == old(self).focus,
            final(self).mode == old(self).mode,
            final(self).filter == old(self).filter,
    {
        if self.focus != PanelFocus::Local {
            return Action::Nothing;
        }
        match self.local.selected_entry() {
            Some(e) => {
                if Self::is_parent_name(&e.name) {
                    Action::Nothing
                } else {
                    let mut m = String::from_str("Uploading '");
                    m.append(e.name.as_str());
                    m.append("' in background…");
                    let action = Action::Upload {
                        local_path: join_local_path(self.local.cwd.as_str(), e.name.as_str()),
                        remote_target: join_remote_path(self.remote.cwd.as_str(), e.name.as_str()),
                        name: e.name.clone(),
                        is_dir: e.is_dir,
                    };
                    self.message = Some(m);
                    action
                }
            },
            None => Action::Nothing,
        }
    }

    /// `d` on the remote panel: the selected file is to be queued for download, or the
    /// selected folder downloaded whole, into the local panel's directory.
    fn download_selected(&mut self) -> (action: Action)
        requires
            old(self).wf(),
        ensures
            final(self).wf(),
            download_request(*old(self), action),
            final(self).local == old(self).local,
            final(self).remote == old(self).remote,
            final(self).focus == old(self).focus,
            final(self).mode == old(self).mode,
            final(self).filter == old(self).filter,
    {
        if self.focus != PanelFocus::Remote {
            return Action::Nothing;
        }
        match self.remote.selected_entry() {
            Some(e) => {
                let full = join_remote_path(self.remote.cwd.as_str(), e.name.as_str());
                if !e.is_dir {
                    let action = Action::DownloadFile { remote_path: full, file_name: e.name.clone() };
                    self.message = Some(String::from_str("Queued download"));
                    action
                } else {
                    let mut m = String::from_str("Scanning folder '");
                    m.append(e.name.as_str());
                    m.append("'…");
                    let action = Action::DownloadFolder {
                        remote_root: full,
                        folder_name: e.name.clone(),
                    };
                    self.message = Some(m);
                    action
                }
            },
            None => Action::Nothing,
        }
    }
}

/// Where the remote panel starts: the user's home directory `/home/<user>` when its
/// listing holds something, else the root.
pub fn initial_remote_dir(user: &str, home_listing: &Vec<FileEntry>) -> (r: String)
    ensures
        home_listing@.len() > 0 ==> r@ == "/home/"@ + user@,
        home_listing@.len() == 0 ==> r@ == seq!['/'],
{
    if home_listing.len() > 0 {
        home_dir_of(user)
    } else {
        proof {
            reveal_strlit("/");
        }
        String::from_str("/")
    }
}

/// The remote home directory of `user`, `/home/<user>`.
pub fn home_dir_of(user: &str) -> (r: String)
    ensures
        r@ == "/home/"@ + user@,
{
    let mut r = String::from_str("/home/");
    r.append(user);
    r
}

} // verus!
